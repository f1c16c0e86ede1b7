use vstd::prelude::*;
use crate::text::{lower_of, contains_folded, contains_str, to_lower};

verus! {

/// Weight of a term found in an entry's summary.
pub const SUMMARY_WEIGHT: u64 = 3;
/// Weight of a term found in an entry's first prompt.
pub const FIRST_PROMPT_WEIGHT: u64 = 2;
/// Weight of a term found in an entry's branch name.
pub const GIT_BRANCH_WEIGHT: u64 = 1;
/// Weight of a term found in an entry's project path.
pub const PROJECT_PATH_WEIGHT: u64 = 1;

/// The searchable fields of an index entry, highest weight first.
#[derive(Clone, Copy, Debug, PartialEq, Eq, Structural)]
pub enum IndexField {
    Summary,
    FirstPrompt,
    GitBranch,
    ProjectPath,
}

impl IndexField {
    /// The field's name as it appears in an index file.
    pub fn name(&self) -> (r: &'static str)
        ensures
            r@ == match self {
                IndexField::Summary => "summary"@,
                IndexField::FirstPrompt => "firstPrompt"@,
                IndexField::GitBranch => "gitBranch"@,
                IndexField::ProjectPath => "projectPath"@,
            },
    {
        match self {
            IndexField::Summary => "summary",
            IndexField::FirstPrompt => "firstPrompt",
            IndexField::GitBranch => "gitBranch",
            IndexField::ProjectPath => "projectPath",
        }
    }
}

/// One session's metadata as an index file records it.
#[derive(Clone, Debug)]
pub struct SessionIndexEntry {
    pub session_id: String,
    pub first_prompt: String,
    pub summary: String,
    pub message_count: u64,
    pub created: String,
    pub modified: String,
    pub git_branch: String,
    pub project_path: String,
}

pub open spec fn field_text(e: SessionIndexEntry, f: IndexField) -> Seq<char> {
    match f {
        IndexField::Summary => e.summary@,
        IndexField::FirstPrompt => e.first_prompt@,
        IndexField::GitBranch => e.git_branch@,
        IndexField::ProjectPath => e.project_path@,
    }
}

/// The weight of a field: a term found there adds this much to the score.
pub open spec fn weight(f: IndexField) -> nat {
    match f {
        IndexField::Summary => SUMMARY_WEIGHT as nat,
        IndexField::FirstPrompt => FIRST_PROMPT_WEIGHT as nat,
        IndexField::GitBranch => GIT_BRANCH_WEIGHT as nat,
        IndexField::ProjectPath => PROJECT_PATH_WEIGHT as nat,
    }
}

/// Term `t` matches field `f` of `e`, ignoring case.
pub open spec fn hits(e: SessionIndexEntry, t: Seq<char>, f: IndexField) -> bool {
    contains_folded(field_text(e, f), t)
}

/// Term `t` matches at least one field of `e`.
pub open spec fn term_found(e: SessionIndexEntry, t: Seq<char>) -> bool {
    hits(e, t, IndexField::Summary) || hits(e, t, IndexField::FirstPrompt) || hits(
        e,
        t,
        IndexField::GitBranch,
    ) || hits(e, t, IndexField::ProjectPath)
}

/// The weights of all fields that term `t` matches.
pub open spec fn term_weight(e: SessionIndexEntry, t: Seq<char>) -> nat {
    (if hits(e, t, IndexField::Summary) { weight(IndexField::Summary) } else { 0 })
        + (if hits(e, t, IndexField::FirstPrompt) { weight(IndexField::FirstPrompt) } else { 0 })
        + (if hits(e, t, IndexField::GitBranch) { weight(IndexField::GitBranch) } else { 0 })
        + (if hits(e, t, IndexField::ProjectPath) { weight(IndexField::ProjectPath) } else { 0 })
}

/// The sum over the terms of each term's weight.
pub open spec fn weight_sum(e: SessionIndexEntry, terms: Seq<Seq<char>>) -> nat
    decreases terms.len(),
{
    if terms.len() == 0 {
        0
    } else {
        weight_sum(e, terms.drop_last()) + term_weight(e, terms.last())
    }
}

pub open spec fn all_terms_found(e: SessionIndexEntry, terms: Seq<Seq<char>>) -> bool {
    forall|i: int| 0 <= i < terms.len() ==> term_found(e, #[trigger] terms[i])
}

/// The relevance of `e` to the terms: zero unless every term matches some field.
pub open spec fn entry_score(e: SessionIndexEntry, terms: Seq<Seq<char>>) -> nat {
    if all_terms_found(e, terms) {
        weight_sum(e, terms)
    } else {
        0
    }
}

pub open spec fn some_term_hits(e: SessionIndexEntry, terms: Seq<Seq<char>>, f: IndexField) -> bool {
    exists|i: int| 0 <= i < terms.len() && hits(e, #[trigger] terms[i], f)
}

/// The highest-weight field that any term matched; on equal weights the earlier field.
pub open spec fn best_field(e: SessionIndexEntry, terms: Seq<Seq<char>>) -> Option<IndexField> {
    if !all_terms_found(e, terms) {
        None
    } else if some_term_hits(e, terms, IndexField::Summary) {
        Some(IndexField::Summary)
    } else if some_term_hits(e, terms, IndexField::FirstPrompt) {
        Some(IndexField::FirstPrompt)
    } else if some_term_hits(e, terms, IndexField::GitBranch) {
        Some(IndexField::GitBranch)
    } else if some_term_hits(e, terms, IndexField::ProjectPath) {
        Some(IndexField::ProjectPath)
    } else {
        None
    }
}

pub open spec fn term_views(terms: Seq<String>) -> Seq<Seq<char>> {
    terms.map_values(|t: String| t@)
}

proof fn lemma_weight_sum_bound(e: SessionIndexEntry, terms: Seq<Seq<char>>)
    ensures
        weight_sum(e, terms) <= 7 * terms.len(),
    decreases terms.len(),
{
    if terms.len() > 0 {
        lemma_weight_sum_bound(e, terms.drop_last());
    }
}

/// Scores `entry` against the terms: the score and the best matching field.
pub fn score_index_entry(entry: &SessionIndexEntry, query_terms: &[String]) -> (r: (
    u64,
    Option<IndexField>,
))
    requires
        7 * query_terms@.len() <= u64::MAX,
    ensures
        r.0 == entry_score(*entry, term_views(query_terms@)),
        r.1 == best_field(*entry, term_views(query_terms@)),
{
    let ghost e = *entry;
    let ghost terms = term_views(query_terms@);
    let summary = to_lower(entry.summary.as_str());
    let first_prompt = to_lower(entry.first_prompt.as_str());
    let git_branch = to_lower(entry.git_branch.as_str());
    let project_path = to_lower(entry.project_path.as_str());
    let mut total: u64 = 0;
    let mut in_summary = false;
    let mut in_first_prompt = false;
    let mut in_git_branch = false;
    let mut in_project_path = false;
    let mut i: usize = 0;
    while i < query_terms.len()
        invariant
            e == *entry,
            terms == term_views(query_terms@),
            7 * query_terms@.len() <= u64::MAX,
            i <= query_terms@.len(),
            summary@ == lower_of(entry.summary@),
            first_prompt@ == lower_of(entry.first_prompt@),
            git_branch@ == lower_of(entry.git_branch@),
            project_path@ == lower_of(entry.project_path@),
            total == weight_sum(e, terms.subrange(0, i as int)),
            all_terms_found(e, terms.subrange(0, i as int)),
            in_summary == some_term_hits(e, terms.subrange(0, i as int), IndexField::Summary),
            in_first_prompt == some_term_hits(
                e,
                terms.subrange(0, i as int),
                IndexField::FirstPrompt,
            ),
            in_git_branch == some_term_hits(e, terms.subrange(0, i as int), IndexField::GitBranch),
            in_project_path == some_term_hits(
                e,
                terms.subrange(0, i as int),
                IndexField::ProjectPath,
            ),
        decreases query_terms@.len() - i,
    {
        let term = to_lower(query_terms[i].as_str());
        let a = contains_str(summary.as_str(), term.as_str());
        let b = contains_str(first_prompt.as_str(), term.as_str());
        let c = contains_str(git_branch.as_str(), term.as_str());
        let d = contains_str(project_path.as_str(), term.as_str());
        let ghost pre = terms.subrange(0, i as int);
        let ghost next = terms.subrange(0, i + 1);
        assert(next.drop_last() =~= pre);
        assert(next.last() == query_terms@[i as int]@);
        if !(a || b || c || d) {
            assert(!term_found(e, terms[i as int]));
            return (0, None);
        }
        proof {
            lemma_weight_sum_bound(e, pre);
        }
        if a {
            total = total + SUMMARY_WEIGHT;
        }
        if b {
            total = total + FIRST_PROMPT_WEIGHT;
        }
        if c {
            total = total + GIT_BRANCH_WEIGHT;
        }
        if d {
            total = total + PROJECT_PATH_WEIGHT;
        }
        assert forall|f: IndexField| some_term_hits(e, next, f) == (some_term_hits(e, pre, f) || hits(e, next.last(), f)) by {
            if some_term_hits(e, next, f) {
                let k = choose|k: int| 0 <= k < next.len() && hits(e, #[trigger] next[k], f);
                if k < pre.len() {
                    assert(pre[k] == next[k]);
                }
            }
            if some_term_hits(e, pre, f) {
                let k = choose|k: int| 0 <= k < pre.len() && hits(e, #[trigger] pre[k], f);
                assert(pre[k] == next[k]);
            }
            if hits(e, next.last(), f) {
                assert(next[next.len() - 1] == next.last());
            }
        }
        in_summary = in_summary || a;
        in_first_prompt = in_first_prompt || b;
        in_git_branch = in_git_branch || c;
        in_project_path = in_project_path || d;
        assert forall|k: int| 0 <= k < next.len() implies term_found(e, #[trigger] next[k]) by {
            if k < pre.len() {
                assert(pre[k] == next[k]);
            }
        }
        i = i + 1;
    }
    assert(terms.subrange(0, i as int) =~= terms);
    let best = if in_summary {
        Some(IndexField::Summary)
    } else if in_first_prompt {
        Some(IndexField::FirstPrompt)
    } else if in_git_branch {
        Some(IndexField::GitBranch)
    } else if in_project_path {
        Some(IndexField::ProjectPath)
    } else {
        None
    };
    (total, best)
}

proof fn lemma_weight_sum_positive(e: SessionIndexEntry, terms: Seq<Seq<char>>)
    requires
        all_terms_found(e, terms),
    ensures
        weight_sum(e, terms) >= terms.len(),
    decreases terms.len(),
{
    if terms.len() > 0 {
        let pre = terms.drop_last();
        assert forall|i: int| 0 <= i < pre.len() implies term_found(e, #[trigger] pre[i]) by {
            assert(pre[i] == terms[i]);
        }
        lemma_weight_sum_positive(e, pre);
        assert(term_found(e, terms[terms.len() - 1]));
    }
}

/// For a non-empty list of terms, an entry scores zero exactly when some term
/// matches none of its four fields.
pub proof fn law_zero_score_iff_unmatched_term(e: SessionIndexEntry, terms: Seq<Seq<char>>)
    requires
        terms.len() > 0,
    ensures
        (entry_score(e, terms) == 0) <==> exists|i: int|
            0 <= i < terms.len() && !term_found(e, #[trigger] terms[i]),
{
    if all_terms_found(e, terms) {
        lemma_weight_sum_positive(e, terms);
    }
}

/// When every term matches, adding one more matching term adds the weights of
/// every field it matches, even fields that earlier terms matched already.
pub proof fn law_score_adds_term_weights(e: SessionIndexEntry, terms: Seq<Seq<char>>, t: Seq<char>)
    requires
        all_terms_found(e, terms),
        term_found(e, t),
    ensures
        entry_score(e, terms.push(t)) == entry_score(e, terms) + term_weight(e, t),
        entry_score(e, seq![t]) == term_weight(e, t),
{
    let next = terms.push(t);
    assert(next.drop_last() =~= terms);
    assert forall|i: int| 0 <= i < next.len() implies term_found(e, #[trigger] next[i]) by {
        if i < terms.len() {
            assert(next[i] == terms[i]);
        }
    }
    let one = seq![t];
    assert(one.drop_last() =~= Seq::<Seq<char>>::empty());
    assert(one[0] == t);
    assert(all_terms_found(e, one));
    assert(one.last() == t);
    assert(weight_sum(e, one.drop_last()) == 0);
}

} // verus!
