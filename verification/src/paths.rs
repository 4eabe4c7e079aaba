//! Deterministic file locations and names under the application's
//! configuration directory. The file system itself is the caller's.

use vstd::prelude::*;
use crate::strutil;

verus! {

/// Where chat actions are logged, under the given directory.
pub fn action_log_path_from_dir(base_dir: &str) -> (r: String)
    ensures
        r@ == base_dir@ + "/chat_actions.log"@,
{
    let mut s = base_dir.to_owned();
    s.append("/chat_actions.log");
    s
}

/// Where shared messages are written, under the given directory.
pub fn shares_dir_path_from_dir(base_dir: &str) -> (r: String)
    ensures
        r@ == base_dir@ + "/shares"@,
{
    let mut s = base_dir.to_owned();
    s.append("/shares");
    s
}

/// The name of one share file: session, message index and timestamp.
pub fn build_share_file_name(session_id: &str, message_index: usize, ts_ms: u64) -> (r: String)
    ensures
        r@ == "share_"@ + session_id@ + "_"@ + strutil::dec_str(message_index as nat) + "_"@
            + strutil::dec_str(ts_ms as nat) + ".md"@,
{
    let mut s = "share_".to_owned();
    s.append(session_id);
    s.append("_");
    let idx = strutil::u64_to_string(message_index as u64);
    s.append(idx.as_str());
    s.append("_");
    let ts = strutil::u64_to_string(ts_ms);
    s.append(ts.as_str());
    s.append(".md");
    proof {
        assert(s@ =~= "share_"@ + session_id@ + "_"@ + strutil::dec_str(message_index as nat)
            + "_"@ + strutil::dec_str(ts_ms as nat) + ".md"@);
    }
    s
}

/// Where the MCP configuration lives, under the configuration directory.
pub fn build_mcp_config_path_from_dir(app_dir: &str) -> (r: String)
    ensures
        r@ == app_dir@ + "/mcp.json"@,
{
    let mut s = app_dir.to_owned();
    s.append("/mcp.json");
    s
}

/// Where the shipped default MCP configuration lives.
pub fn build_default_mcp_config_path_from_dir(app_dir: &str) -> (r: String)
    ensures
        r@ == app_dir@ + "/defaultMcp.json"@,
{
    let mut s = app_dir.to_owned();
    s.append("/defaultMcp.json");
    s
}

/// Where the application configuration file lives.
pub fn build_config_file_path_from_dir(app_dir: &str) -> (r: String)
    ensures
        r@ == app_dir@ + "/config.json"@,
{
    let mut s = app_dir.to_owned();
    s.append("/config.json");
    s
}

} // verus!
