use vstd::prelude::*;
use crate::deep::{
    all_terms_in, lookup_in, matches_all_terms, meta_in, parse_rg_line, parsed_line,
    session_id_from_path, session_id_of, str_or_empty, IndexLookup, SessionMetadata,
    DEEP_PROMPT_LEN, MAX_MATCHES_PER_SESSION, SNIPPET_CONTEXT,
};
use crate::extract::{claude_text, extract_text_claude, extract_text_openclaw, openclaw_text};
use crate::json::get_str;
use crate::snippet::{get_snippet, snippet};
use crate::text::{lower_of, split_terms, str_eq, to_lower, truncate, truncated, words_of};

verus! {

/// One transcript line that matched a deep search.
#[derive(Clone, Debug)]
pub struct DeepMatch {
    pub session_id: String,
    pub project_path: String,
    pub message_type: String,
    pub snippet: String,
    pub timestamp: String,
    pub summary: Option<String>,
    pub first_prompt: Option<String>,
}

/// A deep match as plain sequences.
pub struct DeepMatchView {
    pub session_id: Seq<char>,
    pub project_path: Seq<char>,
    pub message_type: Seq<char>,
    pub snippet: Seq<char>,
    pub timestamp: Seq<char>,
    pub summary: Option<Seq<char>>,
    pub first_prompt: Option<Seq<char>>,
}

pub open spec fn opt_view(o: Option<String>) -> Option<Seq<char>> {
    match o {
        Some(s) => Some(s@),
        None => None,
    }
}

impl View for DeepMatch {
    type V = DeepMatchView;

    open spec fn view(&self) -> DeepMatchView {
        DeepMatchView {
            session_id: self.session_id@,
            project_path: self.project_path@,
            message_type: self.message_type@,
            snippet: self.snippet@,
            timestamp: self.timestamp@,
            summary: opt_view(self.summary),
            first_prompt: opt_view(self.first_prompt),
        }
    }
}

/// The query's words, lowercased.
pub open spec fn lowered_words(query: Seq<char>) -> Seq<Seq<char>> {
    words_of(query).map_values(|w: Seq<char>| lower_of(w))
}

/// What a transcript line whose record names its own session contributes to a
/// deep search, before the caps.
pub open spec fn claude_candidate(line: Seq<char>, query: Seq<char>, lookup: Seq<crate::scoring::SessionIndexEntry>) -> Option<DeepMatchView> {
    match parsed_line(line) {
        None => None,
        Some(p) => {
            let rec = p.1;
            let ty = str_or_empty(rec, "type"@);
            let text = claude_text(rec);
            if ty != "user"@ && ty != "assistant"@ {
                None
            } else if text.len() == 0 || !all_terms_in(lower_of(text), lowered_words(query)) {
                None
            } else {
                let sid = str_or_empty(rec, "sessionId"@);
                let entry = lookup_in(lookup, sid);
                let cwd = str_or_empty(rec, "cwd"@);
                Some(DeepMatchView {
                    session_id: sid,
                    project_path: if cwd.len() > 0 {
                        cwd
                    } else {
                        match entry {
                            Some(e) => e.project_path@,
                            None => "unknown"@,
                        }
                    },
                    message_type: ty,
                    snippet: snippet(text, query, SNIPPET_CONTEXT as nat),
                    timestamp: str_or_empty(rec, "timestamp"@),
                    summary: match entry {
                        Some(e) => Some(e.summary@),
                        None => None,
                    },
                    first_prompt: match entry {
                        Some(e) => Some(truncated(e.first_prompt@, DEEP_PROMPT_LEN as nat)),
                        None => None,
                    },
                })
            }
        },
    }
}

/// What a transcript line of the header-first layout contributes to a deep search, before the caps.
pub open spec fn openclaw_candidate(line: Seq<char>, query: Seq<char>, meta: Seq<(String, crate::deep::OpenClawSessionMeta)>) -> Option<DeepMatchView> {
    match parsed_line(line) {
        None => None,
        Some(p) => {
            let rec = p.1;
            let role = openclaw_text(rec).0;
            let text = openclaw_text(rec).1;
            if str_or_empty(rec, "type"@) != "message"@ {
                None
            } else if text.len() == 0 || (role != "user"@ && role != "assistant"@) {
                None
            } else if !all_terms_in(lower_of(text), lowered_words(query)) {
                None
            } else {
                let sid = session_id_of(p.0);
                let m = meta_in(meta, sid);
                let ts = str_or_empty(rec, "timestamp"@);
                Some(DeepMatchView {
                    session_id: sid,
                    project_path: match m {
                        Some(x) => if x.cwd@.len() > 0 {
                            x.cwd@
                        } else {
                            "unknown"@
                        },
                        None => "unknown"@,
                    },
                    message_type: role,
                    snippet: snippet(text, query, SNIPPET_CONTEXT as nat),
                    timestamp: if ts.len() > 0 {
                        ts
                    } else {
                        match m {
                            Some(x) => x.timestamp@,
                            None => Seq::empty(),
                        }
                    },
                    summary: None,
                    first_prompt: None,
                })
            }
        },
    }
}

/// How many matches of session `sid` are in `acc`.
pub open spec fn session_count(acc: Seq<DeepMatchView>, sid: Seq<char>) -> nat
    decreases acc.len(),
{
    if acc.len() == 0 {
        0
    } else {
        session_count(acc.drop_last(), sid) + if acc.last().session_id == sid {
            1nat
        } else {
            0nat
        }
    }
}

/// The candidates in order, each kept while fewer than `limit` are kept and
/// its session has fewer than the per-session cap.
pub open spec fn capped(cands: Seq<Option<DeepMatchView>>, limit: nat) -> Seq<DeepMatchView>
    decreases cands.len(),
{
    if cands.len() == 0 {
        Seq::empty()
    } else {
        let acc = capped(cands.drop_last(), limit);
        match cands.last() {
            Some(m) => if acc.len() < limit && session_count(acc, m.session_id)
                < MAX_MATCHES_PER_SESSION as nat {
                acc.push(m)
            } else {
                acc
            },
            None => acc,
        }
    }
}

pub open spec fn deep_views(v: Seq<DeepMatch>) -> Seq<DeepMatchView> {
    v.map_values(|m: DeepMatch| m@)
}

pub open spec fn claude_candidates(lines: Seq<String>, query: Seq<char>, lookup: Seq<crate::scoring::SessionIndexEntry>) -> Seq<Option<DeepMatchView>> {
    lines.map_values(|l: String| claude_candidate(l@, query, lookup))
}

pub open spec fn openclaw_candidates(lines: Seq<String>, query: Seq<char>, meta: Seq<(String, crate::deep::OpenClawSessionMeta)>) -> Seq<Option<DeepMatchView>> {
    lines.map_values(|l: String| openclaw_candidate(l@, query, meta))
}

proof fn lemma_session_count_push(acc: Seq<DeepMatchView>, m: DeepMatchView, sid: Seq<char>)
    ensures
        session_count(acc.push(m), sid) == session_count(acc, sid) + if m.session_id == sid {
            1nat
        } else {
            0nat
        },
{
    assert(acc.push(m).drop_last() =~= acc);
}

/// Whatever the lines, a deep search keeps at most two matches of any one
/// session, and never more matches than the limit.
pub proof fn law_per_session_cap(cands: Seq<Option<DeepMatchView>>, limit: nat, sid: Seq<char>)
    ensures
        session_count(capped(cands, limit), sid) <= MAX_MATCHES_PER_SESSION as nat,
        capped(cands, limit).len() <= limit,
    decreases cands.len(),
{
    if cands.len() > 0 {
        law_per_session_cap(cands.drop_last(), limit, sid);
        let acc = capped(cands.drop_last(), limit);
        match cands.last() {
            Some(m) => {
                lemma_session_count_push(acc, m, sid);
            },
            None => {},
        }
    }
}

fn count_session(v: &Vec<DeepMatch>, sid: &String) -> (r: usize)
    ensures
        r == session_count(deep_views(v@), sid@),
{
    let mut n: usize = 0;
    let mut i: usize = 0;
    while i < v.len()
        invariant
            i <= v@.len(),
            n <= i,
            n == session_count(deep_views(v@.subrange(0, i as int)), sid@),
        decreases v@.len() - i,
    {
        assert(deep_views(v@.subrange(0, i + 1)).drop_last() =~= deep_views(v@.subrange(0, i as int)));
        if str_eq(v[i].session_id.as_str(), sid.as_str()) {
            n = n + 1;
        }
        i = i + 1;
    }
    assert(v@.subrange(0, i as int) =~= v@);
    n
}

fn lowered_terms(query: &str) -> (r: Vec<String>)
    ensures
        r@.map_values(|t: String| t@) == lowered_words(query@),
{
    let words = split_terms(query);
    let mut out: Vec<String> = Vec::new();
    let mut i: usize = 0;
    while i < words.len()
        invariant
            i <= words@.len(),
            words@.map_values(|w: String| w@) == words_of(query@),
            out@.map_values(|t: String| t@) =~= lowered_words(query@).subrange(0, i as int),
        decreases words@.len() - i,
    {
        let t = to_lower(words[i].as_str());
        let ghost before = out@;
        out.push(t);
        assert(words_of(query@)[i as int] == words@[i as int]@);
        assert(out@.map_values(|t: String| t@) =~= before.map_values(|t: String| t@).push(t@));
        assert(lowered_words(query@).subrange(0, i + 1) =~= lowered_words(query@).subrange(0, i as int).push(t@));
        i = i + 1;
    }
    assert(lowered_words(query@).subrange(0, i as int) =~= lowered_words(query@));
    out
}

fn claude_candidate_exec(line: &str, query: &str, terms_lower: &Vec<String>, lookup: &IndexLookup) -> (r: Option<DeepMatch>)
    requires
        terms_lower@.map_values(|t: String| t@) == lowered_words(query@),
    ensures
        match r {
            Some(m) => claude_candidate(line@, query@, lookup.entries@) == Some(m@),
            None => claude_candidate(line@, query@, lookup.entries@) is None,
        },
{
    let (_path, record) = match parse_rg_line(line) {
        Some(p) => p,
        None => {
            return None;
        },
    };
    let ty = match record.get_str("type") {
        Some(t) => t.clone(),
        None => String::new(),
    };
    if !str_eq(ty.as_str(), "user") && !str_eq(ty.as_str(), "assistant") {
        return None;
    }
    let text = extract_text_claude(&record);
    if text.as_str().is_empty() {
        return None;
    }
    let text_lower = to_lower(text.as_str());
    if !matches_all_terms(text_lower.as_str(), terms_lower.as_slice()) {
        return None;
    }
    let session_id = match record.get_str("sessionId") {
        Some(s) => s.clone(),
        None => String::new(),
    };
    let entry = lookup.get(session_id.as_str());
    let cwd = match record.get_str("cwd") {
        Some(c) => c.clone(),
        None => String::new(),
    };
    let project_path = if !cwd.as_str().is_empty() {
        cwd
    } else {
        match entry {
            Some(e) => e.project_path.clone(),
            None => String::from_str("unknown"),
        }
    };
    let timestamp = match record.get_str("timestamp") {
        Some(t) => t.clone(),
        None => String::new(),
    };
    let snippet = get_snippet(text.as_str(), query, SNIPPET_CONTEXT);
    Some(DeepMatch {
        session_id,
        project_path,
        message_type: ty,
        snippet,
        timestamp,
        summary: match entry {
            Some(e) => Some(e.summary.clone()),
            None => None,
        },
        first_prompt: match entry {
            Some(e) => Some(truncate(e.first_prompt.as_str(), DEEP_PROMPT_LEN)),
            None => None,
        },
    })
}

fn openclaw_candidate_exec(line: &str, query: &str, terms_lower: &Vec<String>, meta: &SessionMetadata) -> (r: Option<DeepMatch>)
    requires
        terms_lower@.map_values(|t: String| t@) == lowered_words(query@),
    ensures
        match r {
            Some(m) => openclaw_candidate(line@, query@, meta.sessions@) == Some(m@),
            None => openclaw_candidate(line@, query@, meta.sessions@) is None,
        },
{
    let (path, record) = match parse_rg_line(line) {
        Some(p) => p,
        None => {
            return None;
        },
    };
    let is_message = match record.get_str("type") {
        Some(t) => str_eq(t.as_str(), "message"),
        None => false,
    };
    if !is_message {
        proof {
            reveal_strlit("message");
        }
        return None;
    }
    let (role, text) = extract_text_openclaw(&record);
    if text.as_str().is_empty() || (!str_eq(role.as_str(), "user") && !str_eq(role.as_str(), "assistant")) {
        return None;
    }
    let text_lower = to_lower(text.as_str());
    if !matches_all_terms(text_lower.as_str(), terms_lower.as_slice()) {
        return None;
    }
    let session_id = session_id_from_path(path.as_str());
    let m = meta.get(session_id.as_str());
    let own_ts = match record.get_str("timestamp") {
        Some(t) => t.clone(),
        None => String::new(),
    };
    let timestamp = if !own_ts.as_str().is_empty() {
        own_ts
    } else {
        match m {
            Some(x) => x.timestamp.clone(),
            None => String::new(),
        }
    };
    let project_path = match m {
        Some(x) => if !x.cwd.as_str().is_empty() {
            x.cwd.clone()
        } else {
            String::from_str("unknown")
        },
        None => String::from_str("unknown"),
    };
    let snippet = get_snippet(text.as_str(), query, SNIPPET_CONTEXT);
    Some(DeepMatch {
        session_id,
        project_path,
        message_type: role,
        snippet,
        timestamp,
        summary: None,
        first_prompt: None,
    })
}

/// Deep search over the lines of a text search in transcripts whose records name
/// their session: each line
/// that holds a user or assistant record whose text has every query word, in
/// order, at most two per session and at most `limit` in all.
pub fn search_deep_claude(lines: &Vec<String>, query: &str, limit: usize, lookup: &IndexLookup) -> (r: Vec<DeepMatch>)
    ensures
        deep_views(r@) == capped(claude_candidates(lines@, query@, lookup.entries@), limit as nat),
{
    let terms_lower = lowered_terms(query);
    let ghost cands = claude_candidates(lines@, query@, lookup.entries@);
    let mut out: Vec<DeepMatch> = Vec::new();
    let mut i: usize = 0;
    assert(deep_views(out@) =~= capped(cands.subrange(0, 0), limit as nat));
    while i < lines.len()
        invariant
            i <= lines@.len(),
            cands == claude_candidates(lines@, query@, lookup.entries@),
            terms_lower@.map_values(|t: String| t@) == lowered_words(query@),
            deep_views(out@) == capped(cands.subrange(0, i as int), limit as nat),
        decreases lines@.len() - i,
    {
        let ghost acc = deep_views(out@);
        assert(cands.subrange(0, i + 1).drop_last() =~= cands.subrange(0, i as int));
        assert(cands.subrange(0, i + 1).last() == claude_candidate(lines@[i as int]@, query@, lookup.entries@));
        if out.len() < limit {
            match claude_candidate_exec(lines[i].as_str(), query, &terms_lower, lookup) {
                Some(m) => {
                    let c = count_session(&out, &m.session_id);
                    if c < MAX_MATCHES_PER_SESSION {
                        let ghost mv = m@;
                        out.push(m);
                        assert(deep_views(out@) =~= acc.push(mv));
                    }
                },
                None => {},
            }
        }
        i = i + 1;
    }
    assert(cands.subrange(0, i as int) =~= cands);
    out
}

/// Deep search over the lines of a text search in header-first transcripts: each
/// line that holds a user or assistant message whose text has every query
/// word, in order, at most two per session and at most `limit` in all.
pub fn search_deep_openclaw(lines: &Vec<String>, query: &str, limit: usize, meta: &SessionMetadata) -> (r: Vec<DeepMatch>)
    ensures
        deep_views(r@) == capped(openclaw_candidates(lines@, query@, meta.sessions@), limit as nat),
{
    let terms_lower = lowered_terms(query);
    let ghost cands = openclaw_candidates(lines@, query@, meta.sessions@);
    let mut out: Vec<DeepMatch> = Vec::new();
    let mut i: usize = 0;
    assert(deep_views(out@) =~= capped(cands.subrange(0, 0), limit as nat));
    while i < lines.len()
        invariant
            i <= lines@.len(),
            cands == openclaw_candidates(lines@, query@, meta.sessions@),
            terms_lower@.map_values(|t: String| t@) == lowered_words(query@),
            deep_views(out@) == capped(cands.subrange(0, i as int), limit as nat),
        decreases lines@.len() - i,
    {
        let ghost acc = deep_views(out@);
        assert(cands.subrange(0, i + 1).drop_last() =~= cands.subrange(0, i as int));
        assert(cands.subrange(0, i + 1).last() == openclaw_candidate(lines@[i as int]@, query@, meta.sessions@));
        if out.len() < limit {
            match openclaw_candidate_exec(lines[i].as_str(), query, &terms_lower, meta) {
                Some(m) => {
                    let c = count_session(&out, &m.session_id);
                    if c < MAX_MATCHES_PER_SESSION {
                        let ghost mv = m@;
                        out.push(m);
                        assert(deep_views(out@) =~= acc.push(mv));
                    }
                },
                None => {},
            }
        }
        i = i + 1;
    }
    assert(cands.subrange(0, i as int) =~= cands);
    out
}

} // verus!
