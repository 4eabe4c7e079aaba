//! The chat orchestrator: per-session history, server-reference scanning,
//! regeneration, and the bounded tool-calling loop's decisions.

use vstd::prelude::*;
use crate::json::{get_spec, json_parse_of, parse_json, JsonVal, JsonValue};
use crate::models::{plain_message, ChatMessage, ChatMessageV};
use crate::strutil;

verus! {

// ---------------------------------------------------------------------------
// Session store
// ---------------------------------------------------------------------------

/// The per-session histories, keyed by session id.
pub struct SessionStore {
    pub sessions: Vec<(String, Vec<ChatMessage>)>,
}

/// The views of the messages of one history.
pub open spec fn history_view(h: Seq<ChatMessage>) -> Seq<ChatMessageV> {
    h.map_values(|m: ChatMessage| m@)
}

/// The history bound to `id`, searching front to back.
pub open spec fn session_in(
    ss: Seq<(Seq<char>, Seq<ChatMessageV>)>,
    id: Seq<char>,
) -> Option<Seq<ChatMessageV>>
    decreases ss.len(),
{
    if ss.len() == 0 {
        None
    } else if ss[0].0 == id {
        Some(ss[0].1)
    } else {
        session_in(ss.subrange(1, ss.len() as int), id)
    }
}

proof fn lemma_session_in_skip(
    ss: Seq<(Seq<char>, Seq<ChatMessageV>)>,
    id: Seq<char>,
    i: int,
)
    requires
        0 <= i <= ss.len(),
        forall|j: int| 0 <= j < i ==> (#[trigger] ss[j]).0 != id,
    ensures
        session_in(ss, id) == session_in(ss.subrange(i, ss.len() as int), id),
    decreases i,
{
    if i > 0 {
        let t = ss.subrange(1, ss.len() as int);
        lemma_session_in_skip(t, id, i - 1);
        assert(t.subrange(i - 1, t.len() as int) =~= ss.subrange(i, ss.len() as int));
    } else {
        assert(ss.subrange(0, ss.len() as int) =~= ss);
    }
}

proof fn lemma_session_in_update(
    ss: Seq<(Seq<char>, Seq<ChatMessageV>)>,
    i: int,
    v: Seq<ChatMessageV>,
    id: Seq<char>,
)
    requires
        0 <= i < ss.len(),
        forall|j: int| 0 <= j < i ==> (#[trigger] ss[j]).0 != ss[i].0,
    ensures
        session_in(ss.update(i, (ss[i].0, v)), ss[i].0) == Some(v),
        id != ss[i].0 ==> session_in(ss.update(i, (ss[i].0, v)), id) == session_in(ss, id),
    decreases i,
{
    let t = ss.update(i, (ss[i].0, v));
    if i == 0 {
        assert(t[0] == (ss[0].0, v));
        if id != ss[0].0 {
            assert(t.subrange(1, t.len() as int) =~= ss.subrange(1, ss.len() as int));
        }
    } else {
        assert(t[0] == ss[0]);
        let ss1 = ss.subrange(1, ss.len() as int);
        assert(forall|j: int| 0 <= j < i - 1 ==> (#[trigger] ss1[j]).0 != ss1[i - 1].0);
        lemma_session_in_update(ss1, i - 1, v, id);
        assert(t.subrange(1, t.len() as int) =~= ss1.update(i - 1, (ss1[i - 1].0, v)));
        assert(ss1[i - 1] == ss[i]);
    }
}

proof fn lemma_session_in_push(
    ss: Seq<(Seq<char>, Seq<ChatMessageV>)>,
    k: Seq<char>,
    v: Seq<ChatMessageV>,
    id: Seq<char>,
)
    requires
        forall|j: int| 0 <= j < ss.len() ==> (#[trigger] ss[j]).0 != k,
    ensures
        session_in(ss.push((k, v)), k) == Some(v),
        id != k ==> session_in(ss.push((k, v)), id) == session_in(ss, id),
    decreases ss.len(),
{
    let t = ss.push((k, v));
    if ss.len() == 0 {
        assert(t[0] == (k, v));
        if id != k {
            assert(t[0].0 != id);
            assert(t.subrange(1, t.len() as int).len() == 0);
            assert(session_in(t, id) == session_in(t.subrange(1, t.len() as int), id));
            assert(session_in(t, id) is None);
            assert(session_in(ss, id) is None);
        }
    } else {
        assert(t[0] == ss[0]);
        let ss1 = ss.subrange(1, ss.len() as int);
        lemma_session_in_push(ss1, k, v, id);
        assert(t.subrange(1, t.len() as int) =~= ss1.push((k, v)));
        if id != k && ss[0].0 == id {
            assert(session_in(t, id) == Some(t[0].1));
            assert(session_in(ss, id) == Some(ss[0].1));
        }
    }
}

proof fn lemma_session_in_remove(ss: Seq<(Seq<char>, Seq<ChatMessageV>)>, i: int, id: Seq<char>)
    requires
        0 <= i < ss.len(),
        forall|j: int| 0 <= j < i ==> (#[trigger] ss[j]).0 != ss[i].0,
        forall|j: int| i < j < ss.len() ==> (#[trigger] ss[j]).0 != ss[i].0,
    ensures
        session_in(ss.remove(i), ss[i].0) is None,
        id != ss[i].0 ==> session_in(ss.remove(i), id) == session_in(ss, id),
    decreases i,
{
    let t = ss.remove(i);
    if i == 0 {
        assert(t =~= ss.subrange(1, ss.len() as int));
        assert forall|j: int| 0 <= j < t.len() implies (#[trigger] t[j]).0 != ss[0].0 by {
            assert(t[j] == ss[j + 1]);
        }
        lemma_session_none_when_all_differ(t, ss[0].0);
    } else {
        assert(t[0] == ss[0]);
        let ss1 = ss.subrange(1, ss.len() as int);
        assert(forall|j: int| 0 <= j < i - 1 ==> (#[trigger] ss1[j]).0 != ss1[i - 1].0);
        assert forall|j: int| i - 1 < j < ss1.len() implies (#[trigger] ss1[j]).0 != ss1[i
            - 1].0 by {
            assert(ss1[j] == ss[j + 1]);
        }
        lemma_session_in_remove(ss1, i - 1, id);
        assert(t.subrange(1, t.len() as int) =~= ss1.remove(i - 1));
        assert(ss1[i - 1] == ss[i]);
        if id != ss[i].0 && ss[0].0 == id {
            assert(session_in(t, id) == Some(t[0].1));
            assert(session_in(ss, id) == Some(ss[0].1));
        }
    }
}

proof fn lemma_session_none_when_all_differ(
    ss: Seq<(Seq<char>, Seq<ChatMessageV>)>,
    id: Seq<char>,
)
    requires
        forall|j: int| 0 <= j < ss.len() ==> (#[trigger] ss[j]).0 != id,
    ensures
        session_in(ss, id) is None,
    decreases ss.len(),
{
    if ss.len() > 0 {
        lemma_session_none_when_all_differ(ss.subrange(1, ss.len() as int), id);
    }
}

impl SessionStore {
    /// The views of all sessions.
    pub open spec fn entries(&self) -> Seq<(Seq<char>, Seq<ChatMessageV>)> {
        self.sessions@.map_values(
            |p: (String, Vec<ChatMessage>)| (p.0@, history_view(p.1@)),
        )
    }

    /// The history of one session.
    pub open spec fn session(&self, id: Seq<char>) -> Option<Seq<ChatMessageV>> {
        session_in(self.entries(), id)
    }

    /// Each session id appears at most once.
    pub open spec fn wf(&self) -> bool {
        forall|i: int, j: int|
            0 <= i < j < self.entries().len() ==> (#[trigger] self.entries()[i]).0 != (
            #[trigger] self.entries()[j]).0
    }

    /// An empty store.
    pub fn new() -> (r: SessionStore)
        ensures
            r.wf(),
            forall|id: Seq<char>| r.session(id) is None,
    {
        let r = SessionStore { sessions: Vec::new() };
        proof {
            assert(r.entries() =~= Seq::<(Seq<char>, Seq<ChatMessageV>)>::empty());
            assert(forall|id: Seq<char>| r.session(id) is None);
        }
        r
    }

    /// Index of the session with this id, if any.
    fn find_index(&self, id: &str) -> (r: Option<usize>)
        ensures
            match r {
                Some(i) => i < self.entries().len() && self.entries()[i as int].0 == id@
                    && self.session(id@) == Some(self.entries()[i as int].1) && forall|j: int|
                    0 <= j < i ==> (#[trigger] self.entries()[j]).0 != id@,
                None => self.session(id@) is None,
            },
    {
        let mut i: usize = 0;
        while i < self.sessions.len()
            invariant
                i <= self.entries().len(),
                forall|j: int| 0 <= j < i ==> (#[trigger] self.entries()[j]).0 != id@,
            decreases self.entries().len() - i,
        {
            if strutil::eq_str(self.sessions[i].0.as_str(), id) {
                proof {
                    lemma_session_in_skip(self.entries(), id@, i as int);
                    let rest = self.entries().subrange(i as int, self.entries().len() as int);
                    assert(rest[0] == self.entries()[i as int]);
                }
                return Some(i);
            }
            i += 1;
        }
        proof {
            lemma_session_in_skip(self.entries(), id@, i as int);
            assert(self.entries().subrange(i as int, self.entries().len() as int).len() == 0);
        }
        None
    }

    /// Bind `history` to `id`, replacing any earlier history.
    pub fn set_session_history(&mut self, id: &str, history: Vec<ChatMessage>)
        requires
            old(self).wf(),
        ensures
            final(self).wf(),
            final(self).session(id@) == Some(history_view(history@)),
            forall|other: Seq<char>|
                other != id@ ==> #[trigger] final(self).session(other) == old(self).session(
                    other,
                ),
    {
        let ghost oldes = self.entries();
        let ghost hv = history_view(history@);
        match self.find_index(id) {
            Some(i) => {
                let key = self.sessions[i].0.clone();
                let ghost oldsessions = self.sessions@;
                self.sessions.remove(i);
                self.sessions.insert(i, (key, history));
                proof {
                    assert(self.sessions@ =~= oldsessions.update(
                        i as int,
                        (key, self.sessions@[i as int].1),
                    ));
                    let newes = self.entries();
                    assert(newes =~= oldes.update(i as int, (oldes[i as int].0, hv)));
                    lemma_session_in_update(oldes, i as int, hv, id@);
                    assert forall|other: Seq<char>| other != id@ implies #[trigger] session_in(
                        newes,
                        other,
                    ) == session_in(oldes, other) by {
                        lemma_session_in_update(oldes, i as int, hv, other);
                    }
                    assert forall|a: int, b: int|
                        0 <= a < b < newes.len() implies (#[trigger] newes[a]).0 != (
                    #[trigger] newes[b]).0 by {
                        assert(newes[a].0 == oldes[a].0);
                        assert(newes[b].0 == oldes[b].0);
                    }
                }
            },
            None => {
                let ghost oldsessions = self.sessions@;
                self.sessions.push((id.to_owned(), history));
                proof {
                    let newes = self.entries();
                    assert(newes =~= oldes.push((id@, hv)));
                    assert forall|j: int| 0 <= j < oldes.len() implies (#[trigger] oldes[j]).0
                        != id@ by {
                        if oldes[j].0 == id@ {
                            assert forall|m: int| 0 <= m < j implies (#[trigger] oldes[m]).0
                                != id@ by {}
                            lemma_session_in_skip(oldes, id@, j);
                            let rest = oldes.subrange(j, oldes.len() as int);
                            assert(rest[0] == oldes[j]);
                            assert(session_in(oldes, id@) is Some);
                        }
                    }
                    lemma_session_in_push(oldes, id@, hv, id@);
                    assert forall|other: Seq<char>| other != id@ implies #[trigger] session_in(
                        newes,
                        other,
                    ) == session_in(oldes, other) by {
                        lemma_session_in_push(oldes, id@, hv, other);
                    }
                    assert forall|a: int, b: int|
                        0 <= a < b < newes.len() implies (#[trigger] newes[a]).0 != (
                    #[trigger] newes[b]).0 by {
                        if b == oldes.len() {
                            assert(newes[a] == oldes[a]);
                        } else {
                            assert(newes[a] == oldes[a]);
                            assert(newes[b] == oldes[b]);
                        }
                    }
                }
            },
        }
    }

    /// Forget a session entirely; unknown ids are a no-op.
    pub fn clear_session(&mut self, id: &str)
        requires
            old(self).wf(),
        ensures
            final(self).wf(),
            final(self).session(id@) is None,
            forall|other: Seq<char>|
                other != id@ ==> #[trigger] final(self).session(other) == old(self).session(
                    other,
                ),
    {
        let ghost oldes = self.entries();
        match self.find_index(id) {
            Some(i) => {
                self.sessions.remove(i);
                proof {
                    let newes = self.entries();
                    assert(newes =~= oldes.remove(i as int));
                    assert forall|j: int|
                        (i as int) < j < oldes.len() implies (#[trigger] oldes[j]).0 != oldes[
                        i as int].0 by {}
                    lemma_session_in_remove(oldes, i as int, id@);
                    assert forall|other: Seq<char>| other != id@ implies #[trigger] session_in(
                        newes,
                        other,
                    ) == session_in(oldes, other) by {
                        lemma_session_in_remove(oldes, i as int, other);
                    }
                    assert forall|a: int, b: int|
                        0 <= a < b < newes.len() implies (#[trigger] newes[a]).0 != (
                    #[trigger] newes[b]).0 by {
                        let olda = if a < i as int { a } else { a + 1 };
                        let oldb = if b < i as int { b } else { b + 1 };
                        assert(newes[a] == oldes[olda]);
                        assert(newes[b] == oldes[oldb]);
                    }
                }
            },
            None => {},
        }
    }

    /// The message at `index` of a session, if both exist.
    pub fn get_message(&self, id: &str, index: usize) -> (r: Option<ChatMessage>)
        ensures
            match r {
                Some(m) => self.session(id@) is Some && index < self.session(id@)->Some_0.len()
                    && m@ == self.session(id@)->Some_0[index as int],
                None => match self.session(id@) {
                    Some(h) => index >= h.len(),
                    None => true,
                },
            },
    {
        match self.find_index(id) {
            Some(i) => {
                let history = &self.sessions[i].1;
                if index < history.len() {
                    let m = history[index].dup();
                    proof {
                        assert(self.entries()[i as int].1[index as int] == history@[
                            index as int]@);
                    }
                    Some(m)
                } else {
                    None
                }
            },
            None => None,
        }
    }

    /// A copy of a session's history, when it exists.
    pub fn history_snapshot(&self, id: &str) -> (r: Option<Vec<ChatMessage>>)
        ensures
            match r {
                Some(h) => self.session(id@) == Some(history_view(h@)),
                None => self.session(id@) is None,
            },
    {
        match self.find_index(id) {
            Some(i) => {
                let copy = crate::models::dup_messages(&self.sessions[i].1);
                proof {
                    assert(history_view(copy@) =~= self.entries()[i as int].1);
                }
                Some(copy)
            },
            None => None,
        }
    }

    /// Append a user message, creating the session when it is new, and
    /// answer a copy of the updated history.
    pub fn append_user_message(&mut self, id: &str, content: String) -> (r: Vec<ChatMessage>)
        requires
            old(self).wf(),
        ensures
            final(self).wf(),
            ({
                let before = match old(self).session(id@) {
                    Some(h) => h,
                    None => Seq::empty(),
                };
                let after = before.push(plain_message("user"@, content@));
                final(self).session(id@) == Some(after) && history_view(r@) == after
            }),
            forall|other: Seq<char>|
                other != id@ ==> #[trigger] final(self).session(other) == old(self).session(
                    other,
                ),
    {
        let mut history = match self.history_snapshot(id) {
            Some(h) => h,
            None => Vec::new(),
        };
        let msg = ChatMessage::plain("user", content);
        history.push(msg);
        let copy = crate::models::dup_messages(&history);
        let ghost before = match old(self).session(id@) {
            Some(h) => h,
            None => Seq::<ChatMessageV>::empty(),
        };
        proof {
            assert(history_view(history@) =~= before.push(plain_message("user"@, content@)));
            assert(history_view(copy@) =~= history_view(history@));
        }
        self.set_session_history(id, history);
        copy
    }

    /// Append an assistant message to an existing session; a session that
    /// has vanished is left alone.
    pub fn append_assistant_message(&mut self, id: &str, content: String)
        requires
            old(self).wf(),
        ensures
            final(self).wf(),
            match old(self).session(id@) {
                Some(h) => final(self).session(id@) == Some(
                    h.push(plain_message("assistant"@, content@)),
                ),
                None => final(self).session(id@) is None,
            },
            forall|other: Seq<char>|
                other != id@ ==> #[trigger] final(self).session(other) == old(self).session(
                    other,
                ),
    {
        match self.history_snapshot(id) {
            Some(mut history) => {
                let msg = ChatMessage::plain("assistant", content);
                let ghost before = history_view(history@);
                history.push(msg);
                proof {
                    assert(history_view(history@) =~= before.push(
                        plain_message("assistant"@, content@),
                    ));
                }
                self.set_session_history(id, history);
            },
            None => {},
        }
    }

    /// Replace an existing session's history; a session that has vanished
    /// is left alone.
    pub fn replace_history(&mut self, id: &str, history: Vec<ChatMessage>)
        requires
            old(self).wf(),
        ensures
            final(self).wf(),
            match old(self).session(id@) {
                Some(_) => final(self).session(id@) == Some(history_view(history@)),
                None => final(self).session(id@) is None,
            },
            forall|other: Seq<char>|
                other != id@ ==> #[trigger] final(self).session(other) == old(self).session(
                    other,
                ),
    {
        match self.find_index(id) {
            Some(_) => {
                self.set_session_history(id, history);
            },
            None => {},
        }
    }
}


// ---------------------------------------------------------------------------
// Regeneration
// ---------------------------------------------------------------------------

/// The history to regenerate from: everything before `index`. The target
/// must exist and be an assistant message; both failures leave history
/// untouched.
pub fn prepare_regenerate_history(history: &Vec<ChatMessage>, message_index: usize) -> (r:
    Result<Vec<ChatMessage>, String>)
    ensures
        match r {
            Ok(prefix) => message_index < history@.len() && history@[message_index as int]@.role
                == "assistant"@ && history_view(prefix@) == history_view(history@).subrange(
                0,
                message_index as int,
            ),
            Err(e) => {
                ||| (message_index >= history@.len() && e@ == "Message not found"@)
                ||| (message_index < history@.len() && history@[message_index as int]@.role
                    != "assistant"@ && e@ == "Target message is not an assistant response"@)
            },
        },
{
    if message_index >= history.len() {
        return Err("Message not found".to_owned());
    }
    if !strutil::eq_str(history[message_index].role.as_str(), "assistant") {
        return Err("Target message is not an assistant response".to_owned());
    }
    let mut prefix: Vec<ChatMessage> = Vec::new();
    let mut i: usize = 0;
    while i < message_index
        invariant
            i <= message_index,
            message_index < history@.len(),
            prefix@.len() == i,
            forall|j: int| 0 <= j < i ==> (#[trigger] prefix@[j])@ == history@[j]@,
        decreases message_index - i,
    {
        prefix.push(history[i].dup());
        i += 1;
    }
    proof {
        assert(history_view(prefix@) =~= history_view(history@).subrange(
            0,
            message_index as int,
        ));
    }
    Ok(prefix)
}

impl SessionStore {
    /// Overwrite the content of the message at `index` with the newly
    /// generated text, leaving every other message and field untouched. A
    /// vanished session or message fails distinctly.
    pub fn apply_regenerate(&mut self, id: &str, index: usize, content: String) -> (r: Result<
        (),
        String,
    >)
        requires
            old(self).wf(),
        ensures
            final(self).wf(),
            forall|other: Seq<char>|
                other != id@ ==> #[trigger] final(self).session(other) == old(self).session(
                    other,
                ),
            match r {
                Ok(_) => old(self).session(id@) is Some && index < old(self).session(
                    id@,
                )->Some_0.len() && final(self).session(id@) == Some(
                    old(self).session(id@)->Some_0.update(
                        index as int,
                        ChatMessageV {
                            content: content@,
                            ..old(self).session(id@)->Some_0[index as int]
                        },
                    ),
                ),
                Err(e) => *final(self) == *old(self) && {
                    ||| (old(self).session(id@) is None && e@ == "Session not found"@)
                    ||| (old(self).session(id@) is Some && index >= old(self).session(
                        id@,
                    )->Some_0.len() && e@ == "Message no longer exists"@)
                },
            },
    {
        let i = match self.find_index(id) {
            Some(i) => i,
            None => {
                return Err("Session not found".to_owned());
            },
        };
        let mut history = crate::models::dup_messages(&self.sessions[i].1);
        if index >= history.len() {
            return Err("Message no longer exists".to_owned());
        }
        let ghost oldh = self.entries()[i as int].1;
        let target = history.remove(index);
        let replaced = ChatMessage {
            role: target.role,
            content,
            name: target.name,
            tool_call_id: target.tool_call_id,
            tool_calls: target.tool_calls,
        };
        let ghost rv = replaced@;
        history.insert(index, replaced);
        proof {
            assert(history_view(history@) =~= oldh.update(index as int, rv));
            assert(rv == ChatMessageV { content: content@, ..oldh[index as int] });
        }
        self.set_session_history(id, history);
        Ok(())
    }
}

// ---------------------------------------------------------------------------
// Server-reference tokens
// ---------------------------------------------------------------------------

/// The id inside one reference token body: what is left after stripping
/// non-identifier characters (and then whitespace) at both ends; empty
/// means no id.
pub open spec fn token_id(raw: Seq<char>) -> Option<Seq<char>> {
    let id = strutil::trim_spec(strutil::trim_non_ident_spec(raw));
    if id.len() > 0 {
        Some(id)
    } else {
        None
    }
}

/// The server id a token names, if it carries the `@mcp:` or `/mcp:`
/// marker.
pub open spec fn parse_mcp_token_spec(token: Seq<char>) -> Option<Seq<char>> {
    if "@mcp:"@.is_prefix_of(token) {
        token_id(token.subrange(5, token.len() as int))
    } else if "/mcp:"@.is_prefix_of(token) {
        token_id(token.subrange(5, token.len() as int))
    } else {
        None
    }
}

/// Parse one whitespace token as a server reference.
pub fn parse_mcp_token(token: &str) -> (r: Option<String>)
    ensures
        match r {
            Some(id) => parse_mcp_token_spec(token@) == Some(id@),
            None => parse_mcp_token_spec(token@) is None,
        },
{
    proof {
        reveal_strlit("@mcp:");
        reveal_strlit("/mcp:");
    }
    let n = token.unicode_len();
    let matched = if strutil::starts_with(token, "@mcp:") {
        true
    } else {
        strutil::starts_with(token, "/mcp:")
    };
    if !matched {
        return None;
    }
    let raw = strutil::substring(token, 5, n);
    let stripped = strutil::trim_non_ident(raw.as_str());
    let id = strutil::trim(stripped.as_str());
    if id.as_str().unicode_len() > 0 {
        Some(id)
    } else {
        None
    }
}

/// Fold the tokens: referenced ids collected once each in order of first
/// appearance, every other token kept for the cleaned text.
pub open spec fn gather_refs(
    tokens: Seq<Seq<char>>,
    ids: Seq<Seq<char>>,
    kept: Seq<Seq<char>>,
) -> (Seq<Seq<char>>, Seq<Seq<char>>)
    decreases tokens.len(),
{
    if tokens.len() == 0 {
        (ids, kept)
    } else {
        match parse_mcp_token_spec(tokens[0]) {
            Some(id) => gather_refs(
                tokens.subrange(1, tokens.len() as int),
                if ids.contains(id) {
                    ids
                } else {
                    ids.push(id)
                },
                kept,
            ),
            None => gather_refs(
                tokens.subrange(1, tokens.len() as int),
                ids,
                kept.push(tokens[0]),
            ),
        }
    }
}

/// Whether a name stands in a list of strings.
fn ids_contain(ids: &Vec<String>, name: &str) -> (r: bool)
    ensures
        r == ids@.map_values(|t: String| t@).contains(name@),
{
    let ghost iv = ids@.map_values(|t: String| t@);
    let mut i: usize = 0;
    while i < ids.len()
        invariant
            i <= ids@.len(),
            iv == ids@.map_values(|t: String| t@),
            forall|j: int| 0 <= j < i ==> iv[j] != name@,
        decreases ids@.len() - i,
    {
        if strutil::eq_str(ids[i].as_str(), name) {
            proof {
                assert(iv[i as int] == name@);
            }
            return true;
        }
        i += 1;
    }
    proof {
        if iv.contains(name@) {
            let w = choose|w: int| 0 <= w < iv.len() && iv[w] == name@;
            assert(iv[w] != name@);
        }
    }
    false
}

/// Scan the input for embedded server references: collect the referenced
/// ids, once each in order, and strip the tokens from the visible text,
/// whose remaining tokens are joined by single spaces.
pub fn extract_mcp_ids(input: &str) -> (r: (Vec<String>, String))
    ensures
        ({
            let (ids, kept) = gather_refs(
                strutil::tokens_spec(input@),
                Seq::empty(),
                Seq::empty(),
            );
            r.0@.map_values(|t: String| t@) == ids && r.1@ == strutil::trim_spec(
                strutil::join_spec(kept, " "@),
            )
        }),
{
    let tokens = strutil::split_ws(input);
    let ghost tv = tokens@.map_values(|t: String| t@);
    let mut ids: Vec<String> = Vec::new();
    let mut kept: Vec<String> = Vec::new();
    let mut i: usize = 0;
    proof {
        assert(tv.subrange(0, tv.len() as int) =~= tv);
        assert(ids@.map_values(|t: String| t@) =~= Seq::<Seq<char>>::empty());
        assert(kept@.map_values(|t: String| t@) =~= Seq::<Seq<char>>::empty());
    }
    while i < tokens.len()
        invariant
            i <= tokens@.len(),
            tv == tokens@.map_values(|t: String| t@),
            gather_refs(
                tv.subrange(i as int, tv.len() as int),
                ids@.map_values(|t: String| t@),
                kept@.map_values(|t: String| t@),
            ) == gather_refs(tv, Seq::empty(), Seq::empty()),
        decreases tokens@.len() - i,
    {
        let ghost preids = ids@.map_values(|t: String| t@);
        let ghost prekept = kept@.map_values(|t: String| t@);
        let ghost rem = tv.subrange(i as int, tv.len() as int);
        proof {
            assert(rem[0] == tv[i as int]);
            assert(rem.subrange(1, rem.len() as int) =~= tv.subrange(i + 1, tv.len() as int));
        }
        match parse_mcp_token(tokens[i].as_str()) {
            Some(id) => {
                if !ids_contain(&ids, id.as_str()) {
                    ids.push(id);
                    proof {
                        assert(ids@.map_values(|t: String| t@) =~= preids.push(
                            ids@.last()@,
                        ));
                    }
                }
            },
            None => {
                kept.push(tokens[i].clone());
                proof {
                    assert(kept@.map_values(|t: String| t@) =~= prekept.push(tv[i as int]));
                }
            },
        }
        i += 1;
    }
    proof {
        assert(tv.subrange(i as int, tv.len() as int).len() == 0);
    }
    let joined = strutil::join_strings(&kept, " ");
    let cleaned = strutil::trim(joined.as_str());
    (ids, cleaned)
}


// ---------------------------------------------------------------------------
// Action parsing
// ---------------------------------------------------------------------------

/// Index of the first occurrence of `c`.
pub open spec fn first_idx(s: Seq<char>, c: char) -> Option<int>
    decreases s.len(),
{
    if s.len() == 0 {
        None
    } else if s[0] == c {
        Some(0)
    } else {
        match first_idx(s.subrange(1, s.len() as int), c) {
            Some(i) => Some(i + 1),
            None => None,
        }
    }
}

/// Index of the last occurrence of `c`.
pub open spec fn last_idx(s: Seq<char>, c: char) -> Option<int>
    decreases s.len(),
{
    if s.len() == 0 {
        None
    } else if s[s.len() - 1] == c {
        Some(s.len() - 1)
    } else {
        last_idx(s.subrange(0, s.len() - 1), c)
    }
}

proof fn lemma_first_idx_at(s: Seq<char>, c: char, i: int)
    requires
        0 <= i < s.len(),
        s[i] == c,
        forall|j: int| 0 <= j < i ==> s[j] != c,
    ensures
        first_idx(s, c) == Some(i),
    decreases i,
{
    if i > 0 {
        let t = s.subrange(1, s.len() as int);
        lemma_first_idx_at(t, c, i - 1);
    }
}

proof fn lemma_first_idx_none(s: Seq<char>, c: char)
    requires
        forall|j: int| 0 <= j < s.len() ==> s[j] != c,
    ensures
        first_idx(s, c) is None,
    decreases s.len(),
{
    if s.len() > 0 {
        lemma_first_idx_none(s.subrange(1, s.len() as int), c);
    }
}

proof fn lemma_last_idx_at(s: Seq<char>, c: char, i: int)
    requires
        0 <= i < s.len(),
        s[i] == c,
        forall|j: int| i < j < s.len() ==> s[j] != c,
    ensures
        last_idx(s, c) == Some(i),
    decreases s.len() - i,
{
    if i < s.len() - 1 {
        let t = s.subrange(0, s.len() - 1);
        lemma_last_idx_at(t, c, i);
    }
}

proof fn lemma_last_idx_none(s: Seq<char>, c: char)
    requires
        forall|j: int| 0 <= j < s.len() ==> s[j] != c,
    ensures
        last_idx(s, c) is None,
    decreases s.len(),
{
    if s.len() > 0 {
        lemma_last_idx_none(s.subrange(0, s.len() - 1), c);
    }
}

/// The fenced JSON candidate inside free text: from the first `{` to the
/// last `}`, when the brace pair is ordered.
pub open spec fn fenced_json_spec(content: Seq<char>) -> Option<Seq<char>> {
    match (first_idx(content, '{'), last_idx(content, '}')) {
        (Some(a), Some(b)) => if b <= a {
            None
        } else {
            Some(content.subrange(a, b + 1))
        },
        _ => None,
    }
}

/// Cut the fenced JSON candidate out of free text.
pub fn extract_fenced_json(content: &str) -> (r: Option<String>)
    ensures
        match r {
            Some(f) => fenced_json_spec(content@) == Some(f@),
            None => fenced_json_spec(content@) is None,
        },
{
    let start = match strutil::find_char(content, '{') {
        Some(a) => {
            proof {
                lemma_first_idx_at(content@, '{', a as int);
            }
            a
        },
        None => {
            proof {
                lemma_first_idx_none(content@, '{');
            }
            return None;
        },
    };
    let end = match strutil::rfind_char(content, '}') {
        Some(b) => {
            proof {
                lemma_last_idx_at(content@, '}', b as int);
            }
            b
        },
        None => {
            proof {
                lemma_last_idx_none(content@, '}');
            }
            return None;
        },
    };
    if end <= start {
        return None;
    }
    let n = content.unicode_len();
    Some(strutil::substring(content, start, end + 1))
}

/// A tagged decision emitted by the model during the tool loop.
pub struct McpAction {
    pub tool: String,
    pub server: Option<String>,
    pub resource: Option<String>,
    pub input: Option<JsonValue>,
}

/// The mathematical shape of an action.
pub struct McpActionV {
    pub tool: Seq<char>,
    pub server: Option<Seq<char>>,
    pub resource: Option<Seq<char>>,
    pub input: Option<JsonVal>,
}

impl View for McpAction {
    type V = McpActionV;

    open spec fn view(&self) -> McpActionV {
        McpActionV {
            tool: self.tool@,
            server: self.server.deep_view(),
            resource: self.resource.deep_view(),
            input: match self.input {
                Some(ref v) => Some(v@),
                None => None,
            },
        }
    }
}

/// How a JSON value reads as an action: `tool` must be a string; `server`
/// and `resource` must be strings when present, `null` counting as
/// absent; any `input` is carried as it stands; anything malformed
/// rejects the whole value.
pub open spec fn action_of(v: JsonVal) -> Option<McpActionV> {
    match get_spec(v, "tool"@) {
        Some(JsonVal::Str(tool)) => {
            let server = get_spec(v, "server"@);
            let resource = get_spec(v, "resource"@);
            let server_ok = match server {
                Some(JsonVal::Str(_)) => true,
                Some(JsonVal::Null) => true,
                None => true,
                _ => false,
            };
            let resource_ok = match resource {
                Some(JsonVal::Str(_)) => true,
                Some(JsonVal::Null) => true,
                None => true,
                _ => false,
            };
            if server_ok && resource_ok {
                Some(
                    McpActionV {
                        tool,
                        server: match server {
                            Some(JsonVal::Str(s)) => Some(s),
                            _ => None,
                        },
                        resource: match resource {
                            Some(JsonVal::Str(s)) => Some(s),
                            _ => None,
                        },
                        input: match get_spec(v, "input"@) {
                            Some(JsonVal::Null) => None,
                            other => other,
                        },
                    },
                )
            } else {
                None
            }
        },
        _ => None,
    }
}

/// Read a JSON value as an action.
pub fn action_from_json(v: &JsonValue) -> (r: Option<McpAction>)
    ensures
        match r {
            Some(a) => action_of(v@) == Some(a@),
            None => action_of(v@) is None,
        },
{
    let tool = match v.get("tool") {
        Some(t) => {
            match t.as_str() {
                Some(s) => s.clone(),
                None => {
                    return None;
                },
            }
        },
        None => {
            return None;
        },
    };
    let server = match v.get("server") {
        Some(f) => {
            match f {
                JsonValue::Str(x) => Some(x.clone()),
                JsonValue::Null => None,
                _ => {
                    return None;
                },
            }
        },
        None => None,
    };
    let resource = match v.get("resource") {
        Some(f) => {
            match f {
                JsonValue::Str(x) => Some(x.clone()),
                JsonValue::Null => None,
                _ => {
                    return None;
                },
            }
        },
        None => None,
    };
    let input = match v.get("input") {
        Some(f) => {
            match f {
                JsonValue::Null => None,
                other => Some(other.deep_clone()),
            }
        },
        None => None,
    };
    let a = McpAction { tool, server, resource, input };
    proof {
        assert(a@.server =~~= action_of(v@)->Some_0.server);
        assert(a@.resource =~~= action_of(v@)->Some_0.resource);
    }
    Some(a)
}

/// What free text parses to: the whole trimmed text when it is a JSON
/// action, else the fenced candidate when that is one; anything else is
/// the final answer, not an action.
pub open spec fn parse_action_spec(content: Seq<char>) -> Option<McpActionV> {
    let trimmed = strutil::trim_spec(content);
    if trimmed.len() == 0 {
        None
    } else {
        match json_parse_of(trimmed) {
            Some(v) => match action_of(v) {
                Some(a) => Some(a),
                None => fenced_action(trimmed),
            },
            None => fenced_action(trimmed),
        }
    }
}

/// The action inside the fenced JSON candidate, if any.
pub open spec fn fenced_action(trimmed: Seq<char>) -> Option<McpActionV> {
    match fenced_json_spec(trimmed) {
        Some(f) => match json_parse_of(f) {
            Some(v) => action_of(v),
            None => None,
        },
        None => None,
    }
}

/// Parse assistant content as a tool action.
pub fn parse_action_json(content: &str) -> (r: Option<McpAction>)
    ensures
        match r {
            Some(a) => parse_action_spec(content@) == Some(a@),
            None => parse_action_spec(content@) is None,
        },
{
    let trimmed = strutil::trim(content);
    if trimmed.as_str().unicode_len() == 0 {
        return None;
    }
    match parse_json(trimmed.as_str()) {
        Some(v) => {
            match action_from_json(&v) {
                Some(a) => {
                    return Some(a);
                },
                None => {},
            }
        },
        None => {},
    }
    let fenced = match extract_fenced_json(trimmed.as_str()) {
        Some(f) => f,
        None => {
            return None;
        },
    };
    match parse_json(fenced.as_str()) {
        Some(v) => action_from_json(&v),
        None => None,
    }
}

/// The assistant message of a completion response: the first choice's
/// message, its string content or empty.
pub open spec fn assistant_message_of(response: JsonVal) -> Option<ChatMessageV> {
    match get_spec(response, "choices"@) {
        Some(c) => match c {
            JsonVal::Arr(items) => if items.len() > 0 {
                match get_spec(items[0], "message"@) {
                    Some(m) => Some(
                        plain_message(
                            "assistant"@,
                            match get_spec(m, "content"@) {
                                Some(JsonVal::Str(s)) => s,
                                _ => Seq::empty(),
                            },
                        ),
                    ),
                    None => None,
                }
            } else {
                None
            },
            _ => None,
        },
        None => None,
    }
}

/// Extract the assistant message from a completion response.
pub fn parse_assistant_message(response: &JsonValue) -> (r: Option<ChatMessage>)
    ensures
        match r {
            Some(m) => assistant_message_of(response@) == Some(m@),
            None => assistant_message_of(response@) is None,
        },
{
    let choices = match response.get("choices") {
        Some(c) => c,
        None => {
            return None;
        },
    };
    let first = match choices.arr_get(0) {
        Some(f) => f,
        None => {
            return None;
        },
    };
    let message = match first.get("message") {
        Some(m) => m,
        None => {
            return None;
        },
    };
    let content = match message.get("content") {
        Some(c) => {
            match c.as_str() {
                Some(s) => s.clone(),
                None => String::new(),
            }
        },
        None => String::new(),
    };
    proof {
        assert(content@ =~= match get_spec(message@, "content"@) {
            Some(JsonVal::Str(s)) => s,
            _ => Seq::<char>::empty(),
        });
    }
    Some(ChatMessage::plain("assistant", content))
}


// ---------------------------------------------------------------------------
// The bounded tool loop
// ---------------------------------------------------------------------------

/// An `{"error": ...}` result fed back to the model.
pub open spec fn error_result_val(msg: Seq<char>) -> JsonVal {
    JsonVal::Obj(Seq::empty().push(("error"@, JsonVal::Str(msg))))
}

/// Build an error result object.
pub fn error_result(msg: String) -> (r: JsonValue)
    ensures
        r@ == error_result_val(msg@),
{
    let ghost mv = msg@;
    let mut fields: Vec<(String, JsonValue)> = Vec::new();
    fields.push(("error".to_owned(), JsonValue::Str(msg)));
    let r = JsonValue::Obj(fields);
    proof {
        crate::json::lemma_view_obj_len(r->Obj_0@);
        crate::json::lemma_view_obj_index(r->Obj_0@, 0);
        assert(r@->Obj_0 =~= Seq::empty().push(("error"@, JsonVal::Str(mv))));
    }
    r
}

/// The arguments forwarded by a run action: an object as it stands, any
/// other value wrapped under `input`, nothing as an empty object.
pub open spec fn args_val(input: Option<JsonVal>) -> JsonVal {
    match input {
        Some(v) => if v is Obj {
            v
        } else {
            JsonVal::Obj(Seq::empty().push(("input"@, v)))
        },
        None => JsonVal::Obj(Seq::empty()),
    }
}

/// What the orchestrator does with one parsed action.
pub enum ActionPlan {
    /// Answer this result without leaving the orchestrator (ordering and
    /// policy violations, unknown actions); the loop continues.
    Respond(JsonValue),
    /// The whole turn fails with this error.
    Fail(String),
    /// List the servers.
    List,
    /// Connect and list this server's resources.
    Browse(String),
    /// Connect and call this tool with these arguments.
    Run(String, String, JsonValue),
}

/// The mathematical shape of a plan.
pub enum ActionPlanV {
    RespondV(JsonVal),
    FailV(Seq<char>),
    ListV,
    BrowseV(Seq<char>),
    RunV(Seq<char>, Seq<char>, JsonVal),
}

impl View for ActionPlan {
    type V = ActionPlanV;

    open spec fn view(&self) -> ActionPlanV {
        match self {
            ActionPlan::Respond(v) => ActionPlanV::RespondV(v@),
            ActionPlan::Fail(e) => ActionPlanV::FailV(e@),
            ActionPlan::List => ActionPlanV::ListV,
            ActionPlan::Browse(s) => ActionPlanV::BrowseV(s@),
            ActionPlan::Run(s, res, args) => ActionPlanV::RunV(s@, res@, args@),
        }
    }
}

/// The tool loop's ordering rules, applied purely to per-turn state:
/// servers must be listed before being browsed and browsed before being
/// run against, and only allowlisted server ids are usable.
pub open spec fn plan_spec(
    a: McpActionV,
    allowed: Seq<Seq<char>>,
    listed: bool,
    browsed: Seq<Seq<char>>,
) -> ActionPlanV {
    if a.tool == "mcp.list_servers"@ {
        ActionPlanV::ListV
    } else if a.tool == "mcp.browse_resources"@ {
        if !listed {
            ActionPlanV::RespondV(error_result_val("Call mcp.list_servers first."@))
        } else {
            match a.server {
                None => ActionPlanV::FailV("mcp.browse_resources requires 'server'"@),
                Some(s) => if allowed.len() > 0 && !allowed.contains(s) {
                    ActionPlanV::RespondV(
                        error_result_val(
                            "Server '"@ + s + "' is not allowed for this request."@,
                        ),
                    )
                } else {
                    ActionPlanV::BrowseV(s)
                },
            }
        }
    } else if a.tool == "mcp.run"@ {
        match a.server {
            None => ActionPlanV::FailV("mcp.run requires 'server'"@),
            Some(s) => if !listed {
                ActionPlanV::RespondV(error_result_val("Call mcp.list_servers before mcp.run."@))
            } else if !browsed.contains(s) {
                ActionPlanV::RespondV(
                    error_result_val(
                        "Call mcp.browse_resources for '"@ + s + "' before mcp.run."@,
                    ),
                )
            } else if allowed.len() > 0 && !allowed.contains(s) {
                ActionPlanV::RespondV(
                    error_result_val("Server '"@ + s + "' is not allowed for this request."@),
                )
            } else {
                match a.resource {
                    None => ActionPlanV::FailV("mcp.run requires 'resource'"@),
                    Some(res) => ActionPlanV::RunV(s, res, args_val(a.input)),
                }
            },
        }
    } else {
        ActionPlanV::RespondV(
            error_result_val(
                "Unknown action '"@ + a.tool
                    + "'. Allowed: mcp.list_servers, mcp.browse_resources, mcp.run"@,
            ),
        )
    }
}

/// A server must be listed before it is browsed: browsing first is
/// answered with the instructive error result directing the caller to
/// list, not executed and not a crash.
pub proof fn lemma_browse_requires_listing(
    a: McpActionV,
    allowed: Seq<Seq<char>>,
    browsed: Seq<Seq<char>>,
)
    requires
        a.tool == "mcp.browse_resources"@,
    ensures
        plan_spec(a, allowed, false, browsed) == ActionPlanV::RespondV(
            error_result_val("Call mcp.list_servers first."@),
        ),
{
    reveal_strlit("mcp.browse_resources");
    reveal_strlit("mcp.list_servers");
    reveal_strlit("mcp.run");
}

/// A server must be browsed before it is run against: running against an
/// unbrowsed server is answered with the instructive error result, not
/// executed.
pub proof fn lemma_run_requires_browse(
    a: McpActionV,
    allowed: Seq<Seq<char>>,
    browsed: Seq<Seq<char>>,
    s: Seq<char>,
)
    requires
        a.tool == "mcp.run"@,
        a.server == Some(s),
        !browsed.contains(s),
    ensures
        plan_spec(a, allowed, true, browsed) == ActionPlanV::RespondV(
            error_result_val("Call mcp.browse_resources for '"@ + s + "' before mcp.run."@),
        ),
{
    reveal_strlit("mcp.browse_resources");
    reveal_strlit("mcp.list_servers");
    reveal_strlit("mcp.run");
}

/// The orchestrator-local state of one tool-calling turn.
pub struct ToolTurn {
    pub listed_once: bool,
    pub browsed_servers: Vec<String>,
    pub iterations: u32,
}

impl ToolTurn {
    /// The views of the browsed servers.
    pub open spec fn browsed(&self) -> Seq<Seq<char>> {
        self.browsed_servers@.map_values(|s: String| s@)
    }

    /// A fresh turn: nothing listed, nothing browsed, no rounds spent.
    pub fn new() -> (r: ToolTurn)
        ensures
            !r.listed_once,
            r.browsed().len() == 0,
            r.iterations == 0,
    {
        let r = ToolTurn { listed_once: false, browsed_servers: Vec::new(), iterations: 0 };
        proof {
            assert(r.browsed() =~= Seq::<Seq<char>>::empty());
        }
        r
    }

    /// Account one round of the loop; exceeding the fixed cap is fatal
    /// for the turn.
    pub fn next_round(&mut self) -> (r: Result<(), String>)
        requires
            old(self).iterations <= 8,
        ensures
            final(self).iterations == old(self).iterations + 1,
            final(self).listed_once == old(self).listed_once,
            final(self).browsed() == old(self).browsed(),
            if final(self).iterations > 8 {
                r matches Err(e) && e@ == "Tool loop exceeded limit"@
            } else {
                r is Ok
            },
    {
        self.iterations = self.iterations + 1;
        if self.iterations > 8 {
            Err("Tool loop exceeded limit".to_owned())
        } else {
            Ok(())
        }
    }

    /// Note that servers have been listed this turn.
    pub fn note_listed(&mut self)
        ensures
            final(self).listed_once,
            final(self).browsed() == old(self).browsed(),
            final(self).iterations == old(self).iterations,
    {
        self.listed_once = true;
    }

    /// Note that a server has been browsed this turn.
    pub fn note_browsed(&mut self, server: &str)
        ensures
            final(self).listed_once == old(self).listed_once,
            final(self).browsed() == old(self).browsed().push(server@),
            final(self).iterations == old(self).iterations,
    {
        self.browsed_servers.push(server.to_owned());
        proof {
            assert(final(self).browsed() =~= old(self).browsed().push(server@));
        }
    }

    /// Decide what to do with one parsed action under this turn's state.
    pub fn plan_action(&self, action: &McpAction, allowed_servers: &Vec<String>) -> (r:
        ActionPlan)
        ensures
            r@ == plan_spec(
                action@,
                allowed_servers@.map_values(|s: String| s@),
                self.listed_once,
                self.browsed(),
            ),
    {
        let ghost allowed = allowed_servers@.map_values(|s: String| s@);
        if strutil::eq_str(action.tool.as_str(), "mcp.list_servers") {
            return ActionPlan::List;
        }
        if strutil::eq_str(action.tool.as_str(), "mcp.browse_resources") {
            if !self.listed_once {
                return ActionPlan::Respond(
                    error_result("Call mcp.list_servers first.".to_owned()),
                );
            }
            let server = match &action.server {
                Some(s) => s,
                None => {
                    return ActionPlan::Fail("mcp.browse_resources requires 'server'".to_owned());
                },
            };
            if allowed_servers.len() > 0 && !ids_contain(allowed_servers, server.as_str()) {
                let mut msg = "Server '".to_owned();
                msg.append(server.as_str());
                msg.append("' is not allowed for this request.");
                proof {
                    assert(msg@ =~= "Server '"@ + server@
                        + "' is not allowed for this request."@);
                }
                return ActionPlan::Respond(error_result(msg));
            }
            proof {
                if allowed_servers@.len() == 0 {
                    assert(allowed.len() == 0);
                }
            }
            return ActionPlan::Browse(server.clone());
        }
        if strutil::eq_str(action.tool.as_str(), "mcp.run") {
            let server = match &action.server {
                Some(s) => s,
                None => {
                    return ActionPlan::Fail("mcp.run requires 'server'".to_owned());
                },
            };
            if !self.listed_once {
                return ActionPlan::Respond(
                    error_result("Call mcp.list_servers before mcp.run.".to_owned()),
                );
            }
            if !ids_contain(&self.browsed_servers, server.as_str()) {
                let mut msg = "Call mcp.browse_resources for '".to_owned();
                msg.append(server.as_str());
                msg.append("' before mcp.run.");
                proof {
                    assert(msg@ =~= "Call mcp.browse_resources for '"@ + server@
                        + "' before mcp.run."@);
                }
                return ActionPlan::Respond(error_result(msg));
            }
            if allowed_servers.len() > 0 && !ids_contain(allowed_servers, server.as_str()) {
                let mut msg = "Server '".to_owned();
                msg.append(server.as_str());
                msg.append("' is not allowed for this request.");
                proof {
                    assert(msg@ =~= "Server '"@ + server@
                        + "' is not allowed for this request."@);
                }
                return ActionPlan::Respond(error_result(msg));
            }
            proof {
                if allowed_servers@.len() == 0 {
                    assert(allowed.len() == 0);
                }
            }
            let resource = match &action.resource {
                Some(res) => res,
                None => {
                    return ActionPlan::Fail("mcp.run requires 'resource'".to_owned());
                },
            };
            let args = match &action.input {
                Some(v) => {
                    if v.is_object() {
                        v.deep_clone()
                    } else {
                        let mut fields: Vec<(String, JsonValue)> = Vec::new();
                        fields.push(("input".to_owned(), v.deep_clone()));
                        let wrapped = JsonValue::Obj(fields);
                        proof {
                            crate::json::lemma_view_obj_len(wrapped->Obj_0@);
                            crate::json::lemma_view_obj_index(wrapped->Obj_0@, 0);
                            assert(wrapped@->Obj_0 =~= Seq::empty().push(("input"@, v@)));
                        }
                        wrapped
                    }
                },
                None => {
                    let fields: Vec<(String, JsonValue)> = Vec::new();
                    let empty = JsonValue::Obj(fields);
                    proof {
                        assert(empty@->Obj_0 =~= Seq::<(Seq<char>, JsonVal)>::empty());
                    }
                    empty
                },
            };
            return ActionPlan::Run(server.clone(), resource.clone(), args);
        }
        let mut msg = "Unknown action '".to_owned();
        msg.append(action.tool.as_str());
        msg.append("'. Allowed: mcp.list_servers, mcp.browse_resources, mcp.run");
        proof {
            assert(msg@ =~= "Unknown action '"@ + action.tool@
                + "'. Allowed: mcp.list_servers, mcp.browse_resources, mcp.run"@);
        }
        ActionPlan::Respond(error_result(msg))
    }
}


// ---------------------------------------------------------------------------
// Prompts, results, events
// ---------------------------------------------------------------------------

/// The system prompt enumerating the three permitted pseudo-actions and
/// the two ordering rules, with the allowed server ids spliced in.
pub open spec fn tool_prompt_text(joined_ids: Seq<char>) -> Seq<char> {
    "You may request tools by responding ONLY with JSON.\nAllowed actions:\n- {\"tool\":\"mcp.list_servers\"}\n- {\"tool\":\"mcp.browse_resources\",\"server\":\"<id>\"}\n- {\"tool\":\"mcp.run\",\"server\":\"<id>\",\"resource\":\"<name>\",\"input\":{...}}\nRules:\n1) If external data is required, call mcp.list_servers first.\n2) Then call mcp.browse_resources before mcp.run.\n3) Never hallucinate MCP output.\nAllowed server ids for this request: ["@
        + joined_ids + "].\nWhen done, answer normally in plain text (not JSON)."@
}

/// Insert the tool system prompt at the head of the history, once: a
/// history already led by a system message is left alone.
pub fn ensure_tool_system_prompt(messages: &mut Vec<ChatMessage>, mcp_ids: &Vec<String>)
    ensures
        ({
            let oldv = history_view(old(messages)@);
            let newv = history_view(final(messages)@);
            if oldv.len() > 0 && oldv[0].role == "system"@ {
                newv == oldv
            } else {
                newv == seq![
                    plain_message(
                        "system"@,
                        tool_prompt_text(
                            strutil::join_spec(
                                mcp_ids@.map_values(|t: String| t@),
                                ", "@,
                            ),
                        ),
                    ),
                ].add(oldv)
            }
        }),
{
    if messages.len() > 0 && strutil::eq_str(messages[0].role.as_str(), "system") {
        proof {
            assert(history_view(messages@) =~= history_view(old(messages)@));
        }
        return;
    }
    let joined = strutil::join_strings(mcp_ids, ", ");
    let mut content =
        "You may request tools by responding ONLY with JSON.\nAllowed actions:\n- {\"tool\":\"mcp.list_servers\"}\n- {\"tool\":\"mcp.browse_resources\",\"server\":\"<id>\"}\n- {\"tool\":\"mcp.run\",\"server\":\"<id>\",\"resource\":\"<name>\",\"input\":{...}}\nRules:\n1) If external data is required, call mcp.list_servers first.\n2) Then call mcp.browse_resources before mcp.run.\n3) Never hallucinate MCP output.\nAllowed server ids for this request: [".to_owned();
    content.append(joined.as_str());
    content.append("].\nWhen done, answer normally in plain text (not JSON).");
    let prompt = ChatMessage::plain("system", content);
    let ghost oldv = history_view(messages@);
    let ghost pv = prompt@;
    messages.insert(0, prompt);
    proof {
        assert(pv.content =~= tool_prompt_text(
            strutil::join_spec(mcp_ids@.map_values(|t: String| t@), ", "@),
        ));
        assert(history_view(messages@) =~= seq![pv].add(oldv));
    }
}

/// The system message carrying an action's JSON result back to the model.
pub open spec fn mcp_result_text(pretty: Seq<char>) -> Seq<char> {
    "MCP_RESULT:\n"@ + pretty
        + "\nContinue. If more external data is needed, emit the next JSON action only."@
}

/// Build the system message that feeds an action's result back.
pub fn action_result_message(result: &JsonValue) -> (r: ChatMessage)
    ensures
        r@ == plain_message(
            "system"@,
            mcp_result_text(crate::json::json_pretty_of(result@)),
        ),
{
    let pretty = crate::json::to_json_string_pretty(result);
    let mut content = "MCP_RESULT:\n".to_owned();
    content.append(pretty.as_str());
    content.append(
        "\nContinue. If more external data is needed, emit the next JSON action only.",
    );
    proof {
        assert(content@ =~= mcp_result_text(crate::json::json_pretty_of(result@)));
    }
    ChatMessage::plain("system", content)
}

/// One listed server as the model sees it: id, name, enabled and the
/// transport's wire name.
pub open spec fn server_entry_val(s: crate::mcp::McpServerConfigV) -> JsonVal {
    JsonVal::Obj(
        Seq::empty().push(("id"@, JsonVal::Str(s.id))).push(("name"@, JsonVal::Str(s.name))).push(
            ("enabled"@, JsonVal::Bool(s.enabled)),
        ).push(
            (
                "transport"@,
                JsonVal::Str(
                    if s.transport is Stdio {
                        "stdio"@
                    } else {
                        "http_sse"@
                    },
                ),
            ),
        ),
    )
}

/// The listed servers as the model sees them.
pub open spec fn server_entries_val(servers: Seq<crate::mcp::McpServerConfigV>) -> Seq<
    JsonVal,
> {
    servers.map_values(|s: crate::mcp::McpServerConfigV| server_entry_val(s))
}

/// The result object of a listing action.
pub open spec fn list_result_val(servers: Seq<crate::mcp::McpServerConfigV>) -> JsonVal {
    JsonVal::Obj(
        Seq::empty().push(("tool"@, JsonVal::Str("mcp.list_servers"@))).push(
            ("servers"@, JsonVal::Arr(server_entries_val(servers))),
        ),
    )
}

/// Build the result of `mcp.list_servers` from the filtered server list.
pub fn list_servers_result(servers: &Vec<crate::mcp::McpServerConfig>) -> (r: JsonValue)
    ensures
        r@ == list_result_val(servers@.map_values(|s: crate::mcp::McpServerConfig| s@)),
{
    broadcast use crate::json::group_json_view;

    let ghost sv = servers@.map_values(|s: crate::mcp::McpServerConfig| s@);
    let mut entries: Vec<JsonValue> = Vec::new();
    let mut i: usize = 0;
    while i < servers.len()
        invariant
            i <= servers@.len(),
            sv == servers@.map_values(|s: crate::mcp::McpServerConfig| s@),
            entries@.len() == i,
            forall|j: int|
                0 <= j < i ==> (#[trigger] entries@[j])@ == server_entry_val(sv[j]),
        decreases servers@.len() - i,
    {
        let sref = &servers[i];
        let mut fields: Vec<(String, JsonValue)> = Vec::new();
        fields.push(("id".to_owned(), JsonValue::Str(sref.id.clone())));
        fields.push(("name".to_owned(), JsonValue::Str(sref.name.clone())));
        fields.push(("enabled".to_owned(), JsonValue::Bool(sref.enabled)));
        let transport_name = match sref.transport {
            crate::mcp::McpTransport::Stdio => "stdio".to_owned(),
            crate::mcp::McpTransport::HttpSse => "http_sse".to_owned(),
        };
        fields.push(("transport".to_owned(), JsonValue::Str(transport_name)));
        let entry = JsonValue::Obj(fields);
        proof {
            crate::json::lemma_view_obj_len(entry->Obj_0@);
            assert forall|j: int| 0 <= j < 4 implies #[trigger] crate::json::view_obj(
                entry->Obj_0@,
            )[j] == server_entry_val(sv[i as int])->Obj_0[j] by {
                crate::json::lemma_view_obj_index(entry->Obj_0@, j);
            }
            assert(entry@->Obj_0 =~= server_entry_val(sv[i as int])->Obj_0);
            assert(entry@ == server_entry_val(sv[i as int]));
        }
        entries.push(entry);
        i += 1;
    }
    let arr = JsonValue::Arr(entries);
    proof {
        crate::json::lemma_view_arr_len(entries@);
        assert forall|j: int|
            0 <= j < sv.len() implies #[trigger] crate::json::view_arr(entries@)[j]
            == server_entries_val(sv)[j] by {
            crate::json::lemma_view_arr_index(entries@, j);
        }
        assert(arr@->Arr_0 =~= server_entries_val(sv));
    }
    let mut fields: Vec<(String, JsonValue)> = Vec::new();
    fields.push(("tool".to_owned(), JsonValue::Str("mcp.list_servers".to_owned())));
    fields.push(("servers".to_owned(), arr));
    let r = JsonValue::Obj(fields);
    proof {
        crate::json::lemma_view_obj_len(r->Obj_0@);
        crate::json::lemma_view_obj_index(r->Obj_0@, 0);
        crate::json::lemma_view_obj_index(r->Obj_0@, 1);
        assert(r@->Obj_0 =~= list_result_val(sv)->Obj_0);
        assert(r@ == list_result_val(sv));
    }
    r
}

/// The result object of a browse action.
pub open spec fn browse_result_val(server: Seq<char>, resources: Seq<JsonVal>) -> JsonVal {
    JsonVal::Obj(
        Seq::empty().push(("tool"@, JsonVal::Str("mcp.browse_resources"@))).push(
            ("server"@, JsonVal::Str(server)),
        ).push(("resources"@, JsonVal::Arr(resources))),
    )
}

/// Build the result of `mcp.browse_resources`.
pub fn browse_result(server: &str, resources: Vec<JsonValue>) -> (r: JsonValue)
    ensures
        r@ == browse_result_val(server@, crate::json::view_arr(resources@)),
{
    let ghost rv = crate::json::view_arr(resources@);
    let mut fields: Vec<(String, JsonValue)> = Vec::new();
    fields.push(("tool".to_owned(), JsonValue::Str("mcp.browse_resources".to_owned())));
    fields.push(("server".to_owned(), JsonValue::Str(server.to_owned())));
    fields.push(("resources".to_owned(), JsonValue::Arr(resources)));
    let r = JsonValue::Obj(fields);
    proof {
        crate::json::lemma_view_obj_len(r->Obj_0@);
        crate::json::lemma_view_obj_index(r->Obj_0@, 0);
        crate::json::lemma_view_obj_index(r->Obj_0@, 1);
        crate::json::lemma_view_obj_index(r->Obj_0@, 2);
        assert(r@->Obj_0 =~= browse_result_val(server@, rv)->Obj_0);
        assert(r@ == browse_result_val(server@, rv));
    }
    r
}

/// The result object of a run action.
pub open spec fn run_result_val(
    server: Seq<char>,
    resource: Seq<char>,
    result: JsonVal,
) -> JsonVal {
    JsonVal::Obj(
        Seq::empty().push(("tool"@, JsonVal::Str("mcp.run"@))).push(
            ("server"@, JsonVal::Str(server)),
        ).push(("resource"@, JsonVal::Str(resource))).push(("result"@, result)),
    )
}

/// Build the result of `mcp.run`.
pub fn run_result(server: &str, resource: &str, result: JsonValue) -> (r: JsonValue)
    ensures
        r@ == run_result_val(server@, resource@, result@),
{
    let ghost resv = result@;
    let mut fields: Vec<(String, JsonValue)> = Vec::new();
    fields.push(("tool".to_owned(), JsonValue::Str("mcp.run".to_owned())));
    fields.push(("server".to_owned(), JsonValue::Str(server.to_owned())));
    fields.push(("resource".to_owned(), JsonValue::Str(resource.to_owned())));
    fields.push(("result".to_owned(), result));
    let r = JsonValue::Obj(fields);
    proof {
        crate::json::lemma_view_obj_len(r->Obj_0@);
        crate::json::lemma_view_obj_index(r->Obj_0@, 0);
        crate::json::lemma_view_obj_index(r->Obj_0@, 1);
        crate::json::lemma_view_obj_index(r->Obj_0@, 2);
        crate::json::lemma_view_obj_index(r->Obj_0@, 3);
        assert(r@->Obj_0 =~= run_result_val(server@, resource@, resv)->Obj_0);
        assert(r@ == run_result_val(server@, resource@, resv));
    }
    r
}

/// The event for one relayed chunk.
pub open spec fn chunk_event_val(chunk: Seq<char>) -> JsonVal {
    JsonVal::Obj(Seq::empty().push(("chunk"@, JsonVal::Str(chunk))))
}

/// Build a chunk event.
pub fn chunk_event(chunk: &str) -> (r: JsonValue)
    ensures
        r@ == chunk_event_val(chunk@),
{
    let mut fields: Vec<(String, JsonValue)> = Vec::new();
    fields.push(("chunk".to_owned(), JsonValue::Str(chunk.to_owned())));
    let r = JsonValue::Obj(fields);
    proof {
        crate::json::lemma_view_obj_len(r->Obj_0@);
        crate::json::lemma_view_obj_index(r->Obj_0@, 0);
        assert(r@->Obj_0 =~= chunk_event_val(chunk@)->Obj_0);
        assert(r@ == chunk_event_val(chunk@));
    }
    r
}

/// The terminal done event.
pub open spec fn done_event_val() -> JsonVal {
    JsonVal::Obj(Seq::empty().push(("status"@, JsonVal::Str("done"@))))
}

/// Build the done event.
pub fn done_event() -> (r: JsonValue)
    ensures
        r@ == done_event_val(),
{
    let mut fields: Vec<(String, JsonValue)> = Vec::new();
    fields.push(("status".to_owned(), JsonValue::Str("done".to_owned())));
    let r = JsonValue::Obj(fields);
    proof {
        crate::json::lemma_view_obj_len(r->Obj_0@);
        crate::json::lemma_view_obj_index(r->Obj_0@, 0);
        assert(r@->Obj_0 =~= done_event_val()->Obj_0);
        assert(r@ == done_event_val());
    }
    r
}

/// Accumulates the streamed chunks into the full assistant response.
pub struct StreamCollector {
    pub acc: String,
}

impl StreamCollector {
    /// An empty accumulator.
    pub fn new() -> (r: StreamCollector)
        ensures
            r.acc@.len() == 0,
    {
        StreamCollector { acc: String::new() }
    }

    /// Take one chunk: the accumulator grows by exactly that chunk.
    pub fn push_chunk(&mut self, chunk: &str)
        ensures
            final(self).acc@ == old(self).acc@ + chunk@,
    {
        self.acc.append(chunk);
    }

    /// The concatenation of everything taken so far.
    pub fn into_text(self) -> (r: String)
        ensures
            r@ == self.acc@,
    {
        self.acc
    }
}

/// The error surfaced when a completion carries no assistant message.
pub fn missing_assistant_error() -> (r: String)
    ensures
        r@ == "Model response is missing assistant message"@,
{
    "Model response is missing assistant message".to_owned()
}

} // verus!
