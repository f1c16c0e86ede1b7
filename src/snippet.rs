use vstd::prelude::*;
use vstd::string::StringSliceAdditionalSpecFns;
use vstd::utf8::*;
use crate::text::{
    bytes_of, contains_bytes, find_bytes, first_occurrence, lower_of, occurs_at, split_terms,
    to_lower, truncate, truncated, words_of,
};

verus! {

broadcast use vstd::string::group_string_axioms;

/// How many characters of a text are shown when no query term occurs in it.
pub const SNIPPET_FALLBACK_LEN: usize = 200;

/// The last character boundary at or before `k`.
pub open spec fn floor_boundary(b: Seq<u8>, k: int) -> int
    decreases k,
{
    if k >= b.len() {
        b.len() as int
    } else if k <= 0 {
        0
    } else if is_char_boundary(b, k) {
        k
    } else {
        floor_boundary(b, k - 1)
    }
}

/// The first character boundary at or after `k`.
pub open spec fn ceil_boundary(b: Seq<u8>, k: int) -> int
    decreases b.len() - k,
{
    if k >= b.len() {
        b.len() as int
    } else if k >= 0 && is_char_boundary(b, k) {
        k
    } else {
        ceil_boundary(b, k + 1)
    }
}

/// The largest character boundary of `s` that is at most `index`.
pub fn floor_char_boundary(s: &str, index: usize) -> (r: usize)
    ensures
        r == floor_boundary(bytes_of(s@), index as int),
{
    let n: usize = s.as_bytes().len();
    if index >= n {
        return n;
    }
    let mut i: usize = index;
    while i > 0 && !s.is_char_boundary(i)
        invariant
            i <= index < n,
            n == bytes_of(s@).len(),
            floor_boundary(bytes_of(s@), index as int) == floor_boundary(bytes_of(s@), i as int),
        decreases i,
    {
        i = i - 1;
    }
    i
}

/// The smallest character boundary of `s` that is at least `index`.
pub fn ceil_char_boundary(s: &str, index: usize) -> (r: usize)
    ensures
        r == ceil_boundary(bytes_of(s@), index as int),
{
    let n: usize = s.as_bytes().len();
    if index >= n {
        return n;
    }
    let mut i: usize = index;
    while i < n && !s.is_char_boundary(i)
        invariant
            index <= i <= n,
            n == bytes_of(s@).len(),
            ceil_boundary(bytes_of(s@), index as int) == ceil_boundary(bytes_of(s@), i as int),
        decreases n - i,
    {
        i = i + 1;
    }
    i
}

proof fn lemma_floor_is_boundary(b: Seq<u8>, k: int)
    requires
        valid_utf8(b),
    ensures
        0 <= floor_boundary(b, k) <= b.len(),
        is_char_boundary(b, floor_boundary(b, k)),
        k >= 0 ==> floor_boundary(b, k) <= k,
    decreases k,
{
    is_char_boundary_start_end_of_seq(b);
    if k < b.len() && k > 0 && !is_char_boundary(b, k) {
        lemma_floor_is_boundary(b, k - 1);
    }
}

proof fn lemma_ceil_is_boundary(b: Seq<u8>, k: int)
    requires
        valid_utf8(b),
    ensures
        0 <= ceil_boundary(b, k) <= b.len(),
        is_char_boundary(b, ceil_boundary(b, k)),
        k <= b.len() ==> ceil_boundary(b, k) >= k,
    decreases b.len() - k,
{
    is_char_boundary_start_end_of_seq(b);
    if k < b.len() && !(k >= 0 && is_char_boundary(b, k)) {
        lemma_ceil_is_boundary(b, k + 1);
    }
}

/// The byte position of the first occurrence of `n` in `h`.
pub open spec fn first_index(h: Seq<u8>, n: Seq<u8>) -> int {
    choose|i: int| first_occurrence(h, n, i)
}

proof fn lemma_first_index(h: Seq<u8>, n: Seq<u8>, i: int)
    requires
        first_occurrence(h, n, i),
    ensures
        first_index(h, n) == i,
{
    let j = first_index(h, n);
    assert(first_occurrence(h, n, j));
    if j < i {
        assert(!occurs_at(h, n, j));
    }
    if i < j {
        assert(!occurs_at(h, n, i));
    }
}

/// Where the first term (in order) that occurs in `h` first occurs, ignoring case.
pub open spec fn term_position(h: Seq<u8>, terms: Seq<Seq<char>>) -> Option<int>
    decreases terms.len(),
{
    if terms.len() == 0 {
        None
    } else if contains_bytes(h, bytes_of(lower_of(terms[0]))) {
        Some(first_index(h, bytes_of(lower_of(terms[0]))))
    } else {
        term_position(h, terms.drop_first())
    }
}

/// Where the snippet for `query` is anchored in `text`: the first occurrence of
/// the whole query, else of its first word that occurs; both ignoring case.
pub open spec fn match_position(text: Seq<char>, query: Seq<char>) -> Option<int> {
    match_position_in(bytes_of(lower_of(text)), query)
}

/// The anchor of `query` in the lowercased bytes `h` of a text.
pub open spec fn match_position_in(h: Seq<u8>, query: Seq<char>) -> Option<int> {
    let q = bytes_of(lower_of(query));
    if contains_bytes(h, q) {
        Some(first_index(h, q))
    } else {
        term_position(h, words_of(query))
    }
}

/// The byte where the snippet around position `idx` starts.
pub open spec fn window_start(text: Seq<char>, idx: int, context: nat) -> int {
    floor_boundary(bytes_of(text), if idx - context > 0 { idx - context } else { 0 })
}

/// The byte where the snippet around position `idx` ends.
pub open spec fn window_end(text: Seq<char>, query: Seq<char>, idx: int, context: nat) -> int {
    let n = bytes_of(text).len() as int;
    let e = idx + bytes_of(query).len() + context;
    ceil_boundary(bytes_of(text), if e < n { e } else { n })
}

pub open spec fn ellipsis_if(b: bool) -> Seq<char> {
    if b {
        seq!['.', '.', '.']
    } else {
        Seq::empty()
    }
}

/// The snippet of `text` for `query` with `context` bytes on each side.
pub open spec fn snippet(text: Seq<char>, query: Seq<char>, context: nat) -> Seq<char> {
    match match_position(text, query) {
        None => truncated(text, SNIPPET_FALLBACK_LEN as nat),
        Some(idx) => {
            let b = bytes_of(text);
            let s = window_start(text, idx, context);
            let e = window_end(text, query, idx, context);
            ellipsis_if(s > 0) + decode_utf8(b.subrange(s, e)) + ellipsis_if(e < b.len())
        },
    }
}

proof fn lemma_window_ordered(text: Seq<char>, query: Seq<char>, idx: int, context: nat)
    requires
        idx >= 0,
    ensures
        0 <= window_start(text, idx, context) <= window_end(text, query, idx, context) <= bytes_of(text).len(),
        is_char_boundary(bytes_of(text), window_start(text, idx, context)),
        is_char_boundary(bytes_of(text), window_end(text, query, idx, context)),
{
    let b = bytes_of(text);
    encode_utf8_valid_utf8(text);
    let s0 = if idx - context > 0 { idx - context } else { 0 };
    let n = b.len() as int;
    let e = idx + bytes_of(query).len() + context;
    let e0 = if e < n { e } else { n };
    lemma_floor_is_boundary(b, s0);
    lemma_ceil_is_boundary(b, e0);
    if s0 >= n {
        assert(floor_boundary(b, s0) == n);
    }
}

fn position_in(h: &[u8], query: &str, whole: &String) -> (r: Option<usize>)
    requires
        whole@ == lower_of(query@),
    ensures
        r matches Some(i) ==> match_position_in(h@, query@) == Some(i as int),
        r is None ==> match_position_in(h@, query@) is None,
{
    let wb = whole.as_str().as_bytes();
    assert(wb@ == bytes_of(lower_of(query@)));
    match find_bytes(h, wb) {
        Some(i) => {
            proof {
                lemma_first_index(h@, bytes_of(lower_of(query@)), i as int);
            }
            Some(i)
        },
        None => {
            let terms = split_terms(query);
            let ghost words = words_of(query@);
            let mut k: usize = 0;
            assert(words.subrange(0, words.len() as int) =~= words);
            while k < terms.len()
                invariant
                    k <= terms@.len(),
                    terms@.map_values(|w: String| w@) == words,
                    words == words_of(query@),
                    !contains_bytes(h@, bytes_of(lower_of(query@))),
                    term_position(h@, words) == term_position(h@, words.subrange(k as int, words.len() as int)),
                decreases terms@.len() - k,
            {
                let ghost rest = words.subrange(k as int, words.len() as int);
                assert(rest.drop_first() =~= words.subrange(k + 1, words.len() as int));
                assert(rest[0] == terms@[k as int]@);
                let t = to_lower(terms[k].as_str());
                let tb = t.as_str().as_bytes();
                assert(tb@ == bytes_of(lower_of(rest[0])));
                match find_bytes(h, tb) {
                    Some(i) => {
                        proof {
                            lemma_first_index(h@, bytes_of(lower_of(rest[0])), i as int);
                            assert(occurs_at(h@, bytes_of(lower_of(rest[0])), i as int));
                            assert(rest.len() > 0);
                            assert(contains_bytes(h@, bytes_of(lower_of(rest[0]))));
                            assert(term_position(h@, rest) == Some(i as int));
                            assert(!contains_bytes(h@, bytes_of(lower_of(query@))));
                        }
                        return Some(i);
                    },
                    None => {},
                }
                k = k + 1;
            }
            assert(words.subrange(k as int, words.len() as int) =~= Seq::<Seq<char>>::empty());
            None
        },
    }
}


/// An excerpt of `text` around the first match of `query`, ignoring case, with
/// `context_chars` bytes on each side widened to character boundaries and
/// `...` where it is cut; the first characters of `text` if nothing matches.
pub fn get_snippet(text: &str, query: &str, context_chars: usize) -> (r: String)
    ensures
        r@ == snippet(text@, query@, context_chars as nat),
{
    let text_lower = to_lower(text);
    let query_lower = to_lower(query);
    let h = text_lower.as_str().as_bytes();
    let pos = position_in(h, query, &query_lower);
    let idx = match pos {
        Some(i) => i,
        None => {
            return truncate(text, SNIPPET_FALLBACK_LEN);
        },
    };
    let ghost b = bytes_of(text@);
    let n: usize = text.as_bytes().len();
    let qlen: usize = query.as_bytes().len();
    let start0: usize = if idx > context_chars { idx - context_chars } else { 0 };
    let wide: u128 = idx as u128 + qlen as u128 + context_chars as u128;
    let end0: usize = if wide < n as u128 { wide as usize } else { n };
    let start = floor_char_boundary(text, start0);
    let end = ceil_char_boundary(text, end0);
    proof {
        lemma_window_ordered(text@, query@, idx as int, context_chars as nat);
        encode_utf8_valid_utf8(text@);
    }
    assert(start == window_start(text@, idx as int, context_chars as nat));
    assert(end == window_end(text@, query@, idx as int, context_chars as nat));
    let (head, _tail) = text.split_at(end);
    proof {
        let hb = b.subrange(0, end as int);
        valid_utf8_split(b, end as int);
        is_char_boundary_start_end_of_seq(hb);
        if start < end {
            is_char_boundary_iff_not_is_continuation_byte(b, start as int);
            is_char_boundary_iff_not_is_continuation_byte(hb, start as int);
            assert(hb[start as int] == b[start as int]);
        }
    }
    let (_lead, mid) = head.split_at(start);
    proof {
        assert(mid.spec_bytes() =~= b.subrange(start as int, end as int));
        encode_utf8_decode_utf8(mid@);
    }
    let mut result = String::new();
    proof {
        reveal_strlit("...");
    }
    if start > 0 {
        result.append("...");
    }
    result.append(mid);
    if end < n {
        result.append("...");
    }
    proof {
        assert("..."@ =~= seq!['.', '.', '.']);
    }
    result
}

/// A snippet never cuts a character: both ends of its window are character
/// boundaries of the text, and the window lies within the text.
pub proof fn law_snippet_window_on_char_boundaries(text: Seq<char>, query: Seq<char>, context: nat)
    requires
        match_position(text, query) is Some,
    ensures
        ({
            let idx = match_position(text, query)->0;
            let s = window_start(text, idx, context);
            let e = window_end(text, query, idx, context);
            &&& 0 <= s <= e <= bytes_of(text).len()
            &&& is_char_boundary(bytes_of(text), s)
            &&& is_char_boundary(bytes_of(text), e)
            &&& valid_utf8(bytes_of(text).subrange(s, e))
            &&& bytes_of(decode_utf8(bytes_of(text).subrange(s, e))) == bytes_of(text).subrange(s, e)
        }),
{
    let idx = match_position(text, query)->0;
    let h = bytes_of(lower_of(text));
    lemma_position_nonneg(text, query);
    lemma_window_ordered(text, query, idx, context);
    let b = bytes_of(text);
    let s = window_start(text, idx, context);
    let e = window_end(text, query, idx, context);
    encode_utf8_valid_utf8(text);
    valid_utf8_split(b, e);
    let hb = b.subrange(0, e);
    is_char_boundary_start_end_of_seq(hb);
    if s < e {
        is_char_boundary_iff_not_is_continuation_byte(b, s);
        is_char_boundary_iff_not_is_continuation_byte(hb, s);
        assert(hb[s] == b[s]);
    }
    valid_utf8_split(hb, s);
    assert(hb.subrange(s, hb.len() as int) =~= b.subrange(s, e));
    decode_utf8_encode_utf8(b.subrange(s, e));
}

proof fn lemma_term_position_nonneg(h: Seq<u8>, terms: Seq<Seq<char>>)
    ensures
        term_position(h, terms) matches Some(i) ==> i >= 0,
    decreases terms.len(),
{
    if terms.len() > 0 {
        let q = bytes_of(lower_of(terms[0]));
        if contains_bytes(h, q) {
            let k = choose|k: int| occurs_at(h, q, k);
            lemma_first_exists(h, q, k);
        } else {
            lemma_term_position_nonneg(h, terms.drop_first());
        }
    }
}

proof fn lemma_first_exists(h: Seq<u8>, n: Seq<u8>, k: int)
    requires
        occurs_at(h, n, k),
    ensures
        first_occurrence(h, n, first_index(h, n)),
        first_index(h, n) >= 0,
    decreases k,
{
    if exists|j: int| 0 <= j < k && occurs_at(h, n, j) {
        let j = choose|j: int| 0 <= j < k && occurs_at(h, n, j);
        lemma_first_exists(h, n, j);
    } else {
        assert(first_occurrence(h, n, k));
    }
}

proof fn lemma_position_nonneg(text: Seq<char>, query: Seq<char>)
    ensures
        match_position(text, query) matches Some(i) ==> i >= 0,
{
    let h = bytes_of(lower_of(text));
    let q = bytes_of(lower_of(query));
    if contains_bytes(h, q) {
        let k = choose|k: int| occurs_at(h, q, k);
        lemma_first_exists(h, q, k);
    } else {
        lemma_term_position_nonneg(h, words_of(query));
    }
}

/// Where no query word occurs in the text, the snippet is the text's first
/// characters (at most the fallback length), with no ellipsis.
pub proof fn law_snippet_fallback(text: Seq<char>, query: Seq<char>, context: nat)
    requires
        match_position(text, query) is None,
    ensures
        snippet(text, query, context) == truncated(text, SNIPPET_FALLBACK_LEN as nat),
        snippet(text, query, context).len() <= SNIPPET_FALLBACK_LEN,
        snippet(text, query, context) == text.subrange(0, snippet(text, query, context).len() as int),
{
}

} // verus!
