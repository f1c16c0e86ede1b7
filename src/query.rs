use vstd::prelude::*;
use crate::extract::join_spaced;
use crate::text::{bytes_of, contains_folded, contains_str, to_lower};

verus! {

/// Why a search cannot start.
#[derive(Clone, Copy, Debug, PartialEq, Eq, Structural)]
pub enum QueryError {
    /// The words of the query join to an empty string.
    Empty,
}

pub open spec fn word_views(words: Seq<String>) -> Seq<Seq<char>> {
    words.map_values(|w: String| w@)
}

/// Joins the words of a query with single spaces; an empty query is refused.
pub fn build_query(words: &Vec<String>) -> (r: Result<String, QueryError>)
    ensures
        r is Ok <==> join_spaced(word_views(words@)).len() > 0,
        r matches Ok(q) ==> q@ == join_spaced(word_views(words@)),
{
    let ghost parts = word_views(words@);
    let mut out = String::new();
    let mut i: usize = 0;
    while i < words.len()
        invariant
            i <= words@.len(),
            parts == word_views(words@),
            out@ == join_spaced(parts.subrange(0, i as int)),
        decreases words@.len() - i,
    {
        let ghost pre = parts.subrange(0, i as int);
        let ghost next = parts.subrange(0, i + 1);
        assert(next.drop_last() =~= pre);
        assert(next.last() == words@[i as int]@);
        if i > 0 {
            out.append(" ");
            proof {
                reveal_strlit(" ");
            }
        } else {
            assert(next =~= seq![words@[0]@]);
        }
        out.append(words[i].as_str());
        i = i + 1;
    }
    assert(parts.subrange(0, i as int) =~= parts);
    if out.as_str().is_empty() {
        Err(QueryError::Empty)
    } else {
        Ok(out)
    }
}

/// The first name that holds the filter, ignoring case.
pub open spec fn first_holding(names: Seq<String>, filter: Seq<char>, from: int) -> Option<int>
    decreases names.len() - from,
{
    if from < 0 || from >= names.len() {
        None
    } else if contains_folded(names[from]@, filter) {
        Some(from)
    } else {
        first_holding(names, filter, from + 1)
    }
}

/// Of the project directories' names, the position of the first one that holds
/// the project filter, ignoring case; `None` where there is no filter or no
/// such name, and the whole storage root is searched.
pub fn pick_project_dir(dir_names: &Vec<String>, project_filter: Option<&str>) -> (r: Option<usize>)
    ensures
        match project_filter {
            None => r is None,
            Some(f) => match r {
                Some(i) => first_holding(dir_names@, f@, 0) == Some(i as int),
                None => first_holding(dir_names@, f@, 0) is None,
            },
        },
{
    let filter = match project_filter {
        Some(f) => f,
        None => {
            return None;
        },
    };
    let filter_lower = to_lower(filter);
    let mut i: usize = 0;
    while i < dir_names.len()
        invariant
            i <= dir_names@.len(),
            project_filter == Some(filter),
            filter_lower@ == crate::text::lower_of(filter@),
            first_holding(dir_names@, filter@, 0) == first_holding(dir_names@, filter@, i as int),
        decreases dir_names@.len() - i,
    {
        let name_lower = to_lower(dir_names[i].as_str());
        if contains_str(name_lower.as_str(), filter_lower.as_str()) {
            return Some(i);
        }
        i = i + 1;
    }
    None
}

/// The project path of an index: the one it records, or else the name of the
/// directory that holds it.
pub fn index_project_path(original_path: &str, dir_name: &str) -> (r: String)
    ensures
        r@ == if original_path@.len() == 0 {
            dir_name@
        } else {
            original_path@
        },
{
    if original_path.is_empty() {
        String::from_str(dir_name)
    } else {
        String::from_str(original_path)
    }
}

/// `b` ends with the bytes of `.jsonl`.
pub open spec fn ends_with_jsonl(b: Seq<u8>) -> bool {
    b.len() >= 6 && b.subrange(b.len() - 6, b.len() as int) == seq![46u8, 106u8, 115u8, 111u8, 110u8, 108u8]
}

/// A transcript file worth reading: its name has the `jsonl` extension (a name
/// that is only `.jsonl` has none), and its path does not mark it deleted.
pub open spec fn live_transcript(path: Seq<char>) -> bool {
    let b = bytes_of(path);
    &&& ends_with_jsonl(b)
    &&& b.len() > 6
    &&& b[b.len() - 7] != 47u8
    &&& !crate::text::str_contains(path, ".deleted."@)
}

/// Whether the file at `path` is a transcript that a metadata scan reads.
pub fn is_live_transcript(path: &str) -> (r: bool)
    ensures
        r == live_transcript(path@),
{
    let b = path.as_bytes();
    let n: usize = b.len();
    if n <= 6 {
        return false;
    }
    let tail: [u8; 6] = [46u8, 106u8, 115u8, 111u8, 110u8, 108u8];
    let mut k: usize = 0;
    while k < 6
        invariant
            n == b@.len(),
            b@ == bytes_of(path@),
            n > 6,
            k <= 6,
            tail@ == seq![46u8, 106u8, 115u8, 111u8, 110u8, 108u8],
            forall|m: int| 0 <= m < k ==> b@[n - 6 + m] == tail@[m],
        decreases 6 - k,
    {
        if b[n - 6 + k] != tail[k] {
            assert(b@.subrange(n - 6, n as int)[k as int] != tail@[k as int]);
            return false;
        }
        k = k + 1;
    }
    assert(b@.subrange(n - 6, n as int) =~= tail@);
    if b[n - 7] == 47u8 {
        return false;
    }
    !contains_str(path, ".deleted.")
}

} // verus!
