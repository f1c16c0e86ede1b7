use vstd::prelude::*;
use crate::extract::join_spaced;
use crate::scoring::IndexField;
use crate::text::{bytes_of, split_terms, str_eq, truncate, truncated, words_of};

verus! {

/// How many characters of a first prompt an index listing previews.
pub const PROMPT_PREVIEW_LEN: usize = 100;

pub open spec fn nonempty(o: Option<String>) -> Option<Seq<char>> {
    match o {
        Some(s) => if s@.len() > 0 {
            Some(s@)
        } else {
            None
        },
        None => None,
    }
}

/// The heading of a deep match: its summary, else its first prompt, else a
/// placeholder.
pub fn deep_match_label(summary: &Option<String>, first_prompt: &Option<String>) -> (r: String)
    ensures
        r@ == match nonempty(*summary) {
            Some(s) => s,
            None => match nonempty(*first_prompt) {
                Some(p) => p,
                None => "(no summary)"@,
            },
        },
{
    match summary {
        Some(s) => if !s.as_str().is_empty() {
            return s.clone();
        },
        None => {},
    }
    match first_prompt {
        Some(p) => if !p.as_str().is_empty() {
            return p.clone();
        },
        None => {},
    }
    String::from_str("(no summary)")
}

/// The tag that shows who wrote a message.
pub fn role_tag(message_type: &str) -> (r: &'static str)
    ensures
        r@ == if message_type@ == "user"@ {
            "USER"@
        } else {
            "ASST"@
        },
{
    if str_eq(message_type, "user") {
        "USER"
    } else {
        "ASST"
    }
}

/// The preview of a first prompt in an index listing: none when the prompt is
/// empty or is the field that matched; else its first characters, with `...`
/// when it is longer than the preview.
pub fn prompt_preview(first_prompt: &str, matched: Option<IndexField>) -> (r: Option<String>)
    ensures
        match r {
            None => first_prompt@.len() == 0 || matched == Some(IndexField::FirstPrompt),
            Some(p) => {
                &&& first_prompt@.len() > 0
                &&& matched != Some(IndexField::FirstPrompt)
                &&& p@ == truncated(first_prompt@, PROMPT_PREVIEW_LEN as nat) + if bytes_of(
                    first_prompt@,
                ).len() > PROMPT_PREVIEW_LEN {
                    seq!['.', '.', '.']
                } else {
                    Seq::empty()
                }
            },
        },
{
    if first_prompt.is_empty() || matched == Some(IndexField::FirstPrompt) {
        return None;
    }
    let mut p = truncate(first_prompt, PROMPT_PREVIEW_LEN);
    proof {
        reveal_strlit("...");
    }
    if first_prompt.as_bytes().len() > PROMPT_PREVIEW_LEN {
        p.append("...");
    } else {
        assert(p@ =~= p@ + Seq::<char>::empty());
    }
    Some(p)
}

/// The text with each run of whitespace made a single space and none at
/// either end.
pub fn collapse_whitespace(s: &str) -> (r: String)
    ensures
        r@ == join_spaced(words_of(s@)),
{
    let words = split_terms(s);
    let ghost parts = words@.map_values(|w: String| w@);
    let mut out = String::new();
    let mut i: usize = 0;
    while i < words.len()
        invariant
            i <= words@.len(),
            parts == words@.map_values(|w: String| w@),
            parts == words_of(s@),
            out@ == join_spaced(parts.subrange(0, i as int)),
        decreases words@.len() - i,
    {
        let ghost pre = parts.subrange(0, i as int);
        let ghost next = parts.subrange(0, i + 1);
        assert(next.drop_last() =~= pre);
        assert(next.last() == words@[i as int]@);
        if i > 0 {
            out.append(" ");
            proof {
                reveal_strlit(" ");
            }
        } else {
            assert(next =~= seq![words@[0]@]);
        }
        out.append(words[i].as_str());
        i = i + 1;
    }
    assert(parts.subrange(0, i as int) =~= parts);
    out
}

/// `s` starts with `p`.
pub open spec fn has_prefix(s: Seq<char>, p: Seq<char>) -> bool {
    p.len() <= s.len() && s.subrange(0, p.len() as int) == p
}

/// Relies on `str::strip_prefix`: what follows `p` in `s` when `s` starts with `p`.
#[verifier::external_body]
fn strip_prefix(s: &str, p: &str) -> (r: Option<String>)
    ensures
        match r {
            Some(rest) => has_prefix(s@, p@) && rest@ == s@.subrange(p@.len() as int, s@.len() as int),
            None => !has_prefix(s@, p@),
        },
{
    s.strip_prefix(p).map(String::from)
}

/// Relies on `dirs::home_dir`: the user's home directory, if one is known,
/// as text. It depends on the environment, so nothing is promised of it.
#[verifier::external_body]
fn home_dir_text() -> (r: Option<String>) {
    dirs::home_dir().map(|h| h.to_string_lossy().to_string())
}

/// A path shown with the home directory written `~`.
pub open spec fn home_shortened(path: Seq<char>, home: Option<Seq<char>>) -> Seq<char> {
    match home {
        Some(h) => if has_prefix(path, h) {
            seq!['~'] + path.subrange(h.len() as int, path.len() as int)
        } else {
            path
        },
        None => path,
    }
}

/// Writes the home directory `home` at the start of `path` as `~`.
pub fn shorten_home(path: &str, home: Option<&str>) -> (r: String)
    ensures
        r@ == home_shortened(
            path@,
            match home {
                Some(h) => Some(h@),
                None => None,
            },
        ),
{
    let h = match home {
        Some(h) => h,
        None => {
            return String::from_str(path);
        },
    };
    match strip_prefix(path, h) {
        Some(rest) => {
            let mut out = String::from_str("~");
            proof {
                reveal_strlit("~");
            }
            out.append(rest.as_str());
            out
        },
        None => String::from_str(path),
    }
}

/// Shows a project path with the current user's home directory written `~`.
pub fn format_project_path(path: &str) -> (r: String)
    ensures
        exists|home: Option<Seq<char>>| r@ == home_shortened(path@, home),
{
    let home = home_dir_text();
    let r = match &home {
        Some(h) => shorten_home(path, Some(h.as_str())),
        None => shorten_home(path, None),
    };
    proof {
        let h = match home {
            Some(h) => Some(h@),
            None => None::<Seq<char>>,
        };
        assert(r@ == home_shortened(path@, h));
    }
    r
}

} // verus!
