use vstd::prelude::*;
use vstd::utf8::*;
use crate::index_search::LoadedIndex;
use crate::json::{get_str, parse_json, parsed_json, Json};
use crate::scoring::SessionIndexEntry;
use crate::text::{bytes_of, contains_str, str_contains, str_eq};

verus! {

broadcast use vstd::string::group_string_axioms;

/// How many matches one session may contribute to a deep search.
pub const MAX_MATCHES_PER_SESSION: usize = 2;
/// Bytes of context on each side of a deep match's snippet.
pub const SNIPPET_CONTEXT: usize = 80;
/// How many characters of an index entry's first prompt a deep match keeps.
pub const DEEP_PROMPT_LEN: usize = 120;

proof fn lemma_boundary_around_ascii(b: Seq<u8>, i: int)
    requires
        valid_utf8(b),
        0 <= i < b.len(),
        b[i] < 128,
    ensures
        is_char_boundary(b, i),
        is_char_boundary(b, i + 1),
{
    is_char_boundary_iff_not_is_continuation_byte(b, i);
    is_char_boundary_start_end_of_seq(b);
    if i + 1 < b.len() {
        let s = b.subrange(i, b.len() as int);
        valid_utf8_split(b, i);
        assert(s[0] == b[i]);
        assert(length_of_first_scalar(s) == 1);
        assert(is_char_boundary(pop_first_scalar(s), 0));
        assert(is_char_boundary(s, 1));
        is_char_boundary_iff_not_is_continuation_byte(s, 1);
        is_char_boundary_iff_not_is_continuation_byte(b, i + 1);
        assert(s[1] == b[i + 1]);
    }
}

/// The first position at or after `from` where byte `x` stands.
pub open spec fn next_byte(b: Seq<u8>, from: int, x: u8) -> Option<int>
    decreases b.len() - from,
{
    if from < 0 || from >= b.len() {
        None
    } else if b[from] == x {
        Some(from)
    } else {
        next_byte(b, from + 1, x)
    }
}

/// The last position before `hi` where byte `x` stands.
pub open spec fn prev_byte(b: Seq<u8>, hi: int, x: u8) -> Option<int>
    decreases hi,
{
    if hi <= 0 || hi > b.len() {
        None
    } else if b[hi - 1] == x {
        Some(hi - 1)
    } else {
        prev_byte(b, hi - 1, x)
    }
}

proof fn lemma_next_byte_range(b: Seq<u8>, from: int, x: u8)
    ensures
        next_byte(b, from, x) matches Some(i) ==> from <= i < b.len() && b[i] == x,
    decreases b.len() - from,
{
    if 0 <= from < b.len() && b[from] != x {
        lemma_next_byte_range(b, from + 1, x);
    }
}

proof fn lemma_prev_byte_range(b: Seq<u8>, hi: int, x: u8)
    ensures
        prev_byte(b, hi, x) matches Some(i) ==> 0 <= i < hi && b[i] == x,
    decreases hi,
{
    if 0 < hi <= b.len() && b[hi - 1] != x {
        lemma_prev_byte_range(b, hi - 1, x);
    }
}

fn find_byte(b: &[u8], from: usize, x: u8) -> (r: Option<usize>)
    ensures
        match r {
            Some(i) => next_byte(b@, from as int, x) == Some(i as int),
            None => next_byte(b@, from as int, x) is None,
        },
{
    let mut i: usize = from;
    while i < b.len()
        invariant
            from <= i,
            next_byte(b@, from as int, x) == next_byte(b@, i as int, x),
        decreases b@.len() - i,
    {
        if b[i] == x {
            return Some(i);
        }
        i = i + 1;
    }
    None
}

fn rfind_byte(b: &[u8], x: u8) -> (r: Option<usize>)
    ensures
        match r {
            Some(i) => prev_byte(b@, b@.len() as int, x) == Some(i as int),
            None => prev_byte(b@, b@.len() as int, x) is None,
        },
{
    let mut hi: usize = b.len();
    while hi > 0
        invariant
            hi <= b@.len(),
            prev_byte(b@, b@.len() as int, x) == prev_byte(b@, hi as int, x),
        decreases hi,
    {
        if b[hi - 1] == x {
            return Some(hi - 1);
        }
        hi = hi - 1;
    }
    None
}

/// The file path and the JSON text of a search output line `path:line:json`,
/// split at its first two colons.
pub open spec fn line_parts(line: Seq<char>) -> Option<(Seq<char>, Seq<char>)> {
    let b = bytes_of(line);
    match next_byte(b, 0, 58) {
        None => None,
        Some(c1) => match next_byte(b, c1 + 1, 58) {
            None => None,
            Some(c2) => Some((decode_utf8(b.subrange(0, c1)), decode_utf8(b.subrange(c2 + 1, b.len() as int)))),
        },
    }
}

/// The file path and the parsed record of a search output line.
pub open spec fn parsed_line(line: Seq<char>) -> Option<(Seq<char>, Json)> {
    match line_parts(line) {
        None => None,
        Some(parts) => match parsed_json(parts.1) {
            None => None,
            Some(j) => Some((parts.0, j)),
        },
    }
}

/// Splits a search output line into its file path and its parsed JSON record.
pub fn parse_rg_line(line: &str) -> (r: Option<(String, Json)>)
    ensures
        match r {
            Some(p) => parsed_line(line@) == Some((p.0@, p.1)),
            None => parsed_line(line@) is None,
        },
{
    let b = line.as_bytes();
    // A byte position of a slice is below its length, which a usize holds.
    let _len: usize = b.len();
    let ghost bs = bytes_of(line@);
    let c1 = match find_byte(b, 0, 58) {
        Some(c) => c,
        None => {
            return None;
        },
    };
    proof {
        lemma_next_byte_range(bs, 0, 58);
    }
    let c2 = match find_byte(b, c1 + 1, 58) {
        Some(c) => c,
        None => {
            return None;
        },
    };
    proof {
        lemma_next_byte_range(bs, c1 + 1, 58);
        encode_utf8_valid_utf8(line@);
        lemma_boundary_around_ascii(bs, c1 as int);
        lemma_boundary_around_ascii(bs, c2 as int);
    }
    let (path, _after) = line.split_at(c1);
    let (_before, json_text) = line.split_at(c2 + 1);
    proof {
        encode_utf8_decode_utf8(path@);
        encode_utf8_decode_utf8(json_text@);
    }
    match parse_json(json_text) {
        Some(j) => Some((String::from_str(path), j)),
        None => None,
    }
}

/// The session identifier that a transcript's path gives: the last
/// `/`-separated component without its final extension (a leading dot does
/// not start an extension).
pub open spec fn session_id_of(path: Seq<char>) -> Seq<char> {
    let b = bytes_of(path);
    let start = match prev_byte(b, b.len() as int, 47) {
        Some(i) => i + 1,
        None => 0,
    };
    let name = b.subrange(start, b.len() as int);
    match prev_byte(name, name.len() as int, 46) {
        Some(d) => if d > 0 {
            decode_utf8(name.subrange(0, d))
        } else {
            decode_utf8(name)
        },
        None => decode_utf8(name),
    }
}

/// The session identifier of a transcript file.
pub fn session_id_from_path(path: &str) -> (r: String)
    ensures
        r@ == session_id_of(path@),
{
    let b = path.as_bytes();
    // A byte position of a slice is below its length, which a usize holds.
    let _len: usize = b.len();
    let ghost bs = bytes_of(path@);
    proof {
        encode_utf8_valid_utf8(path@);
        is_char_boundary_start_end_of_seq(bs);
        lemma_prev_byte_range(bs, bs.len() as int, 47);
    }
    let start: usize = match rfind_byte(b, 47) {
        Some(i) => {
            proof {
                lemma_boundary_around_ascii(bs, i as int);
            }
            i + 1
        },
        None => 0,
    };
    let (_dir, name) = path.split_at(start);
    let nb = name.as_bytes();
    proof {
        assert(nb@ =~= bs.subrange(start as int, bs.len() as int));
        valid_utf8_split(bs, start as int);
        is_char_boundary_start_end_of_seq(nb@);
        lemma_prev_byte_range(nb@, nb@.len() as int, 46);
        encode_utf8_decode_utf8(name@);
    }
    match rfind_byte(nb, 46) {
        Some(d) => {
            if d > 0 {
                proof {
                    lemma_boundary_around_ascii(nb@, d as int);
                }
                let (stem, _ext) = name.split_at(d);
                proof {
                    encode_utf8_decode_utf8(stem@);
                }
                String::from_str(stem)
            } else {
                String::from_str(name)
            }
        },
        None => String::from_str(name),
    }
}

/// Every term occurs in `text_lower`.
pub open spec fn all_terms_in(text_lower: Seq<char>, terms_lower: Seq<Seq<char>>) -> bool {
    forall|i: int| 0 <= i < terms_lower.len() ==> str_contains(text_lower, #[trigger] terms_lower[i])
}

/// Whether every term occurs in the (already lowercased) text.
pub fn matches_all_terms(text_lower: &str, query_terms_lower: &[String]) -> (r: bool)
    ensures
        r == all_terms_in(text_lower@, query_terms_lower@.map_values(|t: String| t@)),
{
    let ghost terms = query_terms_lower@.map_values(|t: String| t@);
    let mut i: usize = 0;
    while i < query_terms_lower.len()
        invariant
            i <= query_terms_lower@.len(),
            terms == query_terms_lower@.map_values(|t: String| t@),
            forall|k: int| 0 <= k < i ==> str_contains(text_lower@, #[trigger] terms[k]),
        decreases query_terms_lower@.len() - i,
    {
        if !contains_str(text_lower, query_terms_lower[i].as_str()) {
            assert(!str_contains(text_lower@, terms[i as int]));
            return false;
        }
        i = i + 1;
    }
    true
}

/// Session metadata read from a transcript's header record.
#[derive(Clone, Debug)]
pub struct OpenClawSessionMeta {
    pub cwd: String,
    pub timestamp: String,
}

/// The string that member `key` holds, or the empty string.
pub open spec fn str_or_empty(j: Json, key: Seq<char>) -> Seq<char> {
    match get_str(j, key) {
        Some(s) => s,
        None => Seq::empty(),
    }
}

fn get_str_or_empty(j: &Json, key: &str) -> (r: String)
    ensures
        r@ == str_or_empty(*j, key@),
{
    match j.get_str(key) {
        Some(s) => s.clone(),
        None => String::new(),
    }
}

/// The metadata that a transcript's first line gives, if it is a session header.
pub open spec fn header_meta(line: Seq<char>) -> Option<(Seq<char>, Seq<char>)> {
    match parsed_json(line) {
        Some(j) => if get_str(j, "type"@) == Some("session"@) {
            Some((str_or_empty(j, "cwd"@), str_or_empty(j, "timestamp"@)))
        } else {
            None
        },
        None => None,
    }
}

/// Reads the working directory and start time from a transcript's header line.
pub fn session_meta_from_header(first_line: &str) -> (r: Option<OpenClawSessionMeta>)
    ensures
        match r {
            Some(m) => header_meta(first_line@) == Some((m.cwd@, m.timestamp@)),
            None => header_meta(first_line@) is None,
        },
{
    let j = match parse_json(first_line) {
        Some(j) => j,
        None => {
            return None;
        },
    };
    let is_header = match j.get_str("type") {
        Some(t) => str_eq(t.as_str(), "session"),
        None => false,
    };
    if !is_header {
        return None;
    }
    Some(OpenClawSessionMeta {
        cwd: get_str_or_empty(&j, "cwd"),
        timestamp: get_str_or_empty(&j, "timestamp"),
    })
}

/// Index entries by session identifier; of two with one identifier the later counts.
pub struct IndexLookup {
    pub entries: Vec<SessionIndexEntry>,
}

/// Session metadata by session identifier; of two with one identifier the later counts.
pub struct SessionMetadata {
    pub sessions: Vec<(String, OpenClawSessionMeta)>,
}

/// The last entry for session `id`.
pub open spec fn lookup_in(entries: Seq<SessionIndexEntry>, id: Seq<char>) -> Option<SessionIndexEntry>
    decreases entries.len(),
{
    if entries.len() == 0 {
        None
    } else if entries.last().session_id@ == id {
        Some(entries.last())
    } else {
        lookup_in(entries.drop_last(), id)
    }
}

/// The last metadata recorded for session `id`.
pub open spec fn meta_in(sessions: Seq<(String, OpenClawSessionMeta)>, id: Seq<char>) -> Option<OpenClawSessionMeta>
    decreases sessions.len(),
{
    if sessions.len() == 0 {
        None
    } else if sessions.last().0@ == id {
        Some(sessions.last().1)
    } else {
        meta_in(sessions.drop_last(), id)
    }
}

/// The entries of `entries` that have a session identifier.
pub open spec fn identified(entries: Seq<SessionIndexEntry>) -> Seq<SessionIndexEntry>
    decreases entries.len(),
{
    if entries.len() == 0 {
        Seq::empty()
    } else {
        identified(entries.drop_last()) + if entries.last().session_id@.len() > 0 {
            seq![entries.last()]
        } else {
            Seq::empty()
        }
    }
}

/// The identified entries of all indexes, in order.
pub open spec fn all_identified(indexes: Seq<LoadedIndex>) -> Seq<SessionIndexEntry>
    decreases indexes.len(),
{
    if indexes.len() == 0 {
        Seq::empty()
    } else {
        all_identified(indexes.drop_last()) + identified(indexes.last().entries@)
    }
}

fn copy_entry(e: &SessionIndexEntry) -> (r: SessionIndexEntry)
    ensures
        r == *e,
{
    SessionIndexEntry {
        session_id: e.session_id.clone(),
        first_prompt: e.first_prompt.clone(),
        summary: e.summary.clone(),
        message_count: e.message_count,
        created: e.created.clone(),
        modified: e.modified.clone(),
        git_branch: e.git_branch.clone(),
        project_path: e.project_path.clone(),
    }
}

/// Gathers the entries of all indexes that have a session identifier.
pub fn build_index_lookup(indexes: &Vec<LoadedIndex>) -> (r: IndexLookup)
    ensures
        r.entries@ == all_identified(indexes@),
{
    let mut entries: Vec<SessionIndexEntry> = Vec::new();
    let mut i: usize = 0;
    while i < indexes.len()
        invariant
            i <= indexes@.len(),
            entries@ == all_identified(indexes@.subrange(0, i as int)),
        decreases indexes@.len() - i,
    {
        let ix = &indexes[i];
        let ghost before = entries@;
        assert(indexes@.subrange(0, i + 1).drop_last() =~= indexes@.subrange(0, i as int));
        let mut j: usize = 0;
        while j < ix.entries.len()
            invariant
                j <= ix.entries@.len(),
                entries@ == before + identified(ix.entries@.subrange(0, j as int)),
            decreases ix.entries@.len() - j,
        {
            let e = &ix.entries[j];
            let ghost pre = identified(ix.entries@.subrange(0, j as int));
            assert(ix.entries@.subrange(0, j + 1).drop_last() =~= ix.entries@.subrange(0, j as int));
            if !e.session_id.as_str().is_empty() {
                entries.push(copy_entry(e));
                assert(before + (pre + seq![*e]) =~= (before + pre).push(*e));
            } else {
                assert(pre + Seq::<SessionIndexEntry>::empty() =~= pre);
            }
            j = j + 1;
        }
        assert(ix.entries@.subrange(0, j as int) =~= ix.entries@);
        i = i + 1;
    }
    assert(indexes@.subrange(0, i as int) =~= indexes@);
    IndexLookup { entries }
}

impl IndexLookup {
    /// The entry for session `id`.
    pub fn get(&self, id: &str) -> (r: Option<&SessionIndexEntry>)
        ensures
            match r {
                Some(e) => lookup_in(self.entries@, id@) == Some(*e),
                None => lookup_in(self.entries@, id@) is None,
            },
    {
        let mut hi: usize = self.entries.len();
        assert(self.entries@.subrange(0, hi as int) =~= self.entries@);
        while hi > 0
            invariant
                hi <= self.entries@.len(),
                lookup_in(self.entries@, id@) == lookup_in(self.entries@.subrange(0, hi as int), id@),
            decreases hi,
        {
            let ghost pre = self.entries@.subrange(0, hi as int);
            assert(pre.drop_last() =~= self.entries@.subrange(0, hi - 1));
            if str_eq(self.entries[hi - 1].session_id.as_str(), id) {
                return Some(&self.entries[hi - 1]);
            }
            hi = hi - 1;
        }
        None
    }
}

impl SessionMetadata {
    /// No sessions recorded.
    pub fn new() -> (r: SessionMetadata)
        ensures
            r.sessions@.len() == 0,
    {
        SessionMetadata { sessions: Vec::new() }
    }

    /// Records the metadata of session `id`, replacing what was recorded for it.
    pub fn insert(&mut self, id: String, meta: OpenClawSessionMeta)
        ensures
            final(self).sessions@ == old(self).sessions@.push((id, meta)),
    {
        self.sessions.push((id, meta));
    }

    /// The metadata of session `id`.
    pub fn get(&self, id: &str) -> (r: Option<&OpenClawSessionMeta>)
        ensures
            match r {
                Some(m) => meta_in(self.sessions@, id@) == Some(*m),
                None => meta_in(self.sessions@, id@) is None,
            },
    {
        let mut hi: usize = self.sessions.len();
        assert(self.sessions@.subrange(0, hi as int) =~= self.sessions@);
        while hi > 0
            invariant
                hi <= self.sessions@.len(),
                meta_in(self.sessions@, id@) == meta_in(self.sessions@.subrange(0, hi as int), id@),
            decreases hi,
        {
            let ghost pre = self.sessions@.subrange(0, hi as int);
            assert(pre.drop_last() =~= self.sessions@.subrange(0, hi - 1));
            if str_eq(self.sessions[hi - 1].0.as_str(), id) {
                return Some(&self.sessions[hi - 1].1);
            }
            hi = hi - 1;
        }
        None
    }
}

} // verus!
