use vstd::prelude::*;
use crate::scoring::{
    best_field, entry_score, score_index_entry, term_views, IndexField, SessionIndexEntry,
};
use crate::text::{
    bytes_of, contains_folded, contains_str, lemma_lex_lt_from_irreflexive,
    lemma_lex_lt_from_transitive, lex_less, lex_lt, split_terms, to_lower, truncate, truncated,
    words_of,
};

verus! {

/// How many characters of a first prompt an index match keeps.
pub const MAX_SNIPPET_LEN: usize = 200;

/// The entries of one index file, with the project path that the index was made for.
#[derive(Clone, Debug)]
pub struct LoadedIndex {
    pub project_path: String,
    pub entries: Vec<SessionIndexEntry>,
}

/// An index entry that matched a query, with its score.
#[derive(Clone, Debug)]
pub struct IndexMatch {
    pub session_id: String,
    pub project_path: String,
    pub first_prompt: String,
    pub summary: String,
    pub git_branch: String,
    pub created: String,
    pub modified: String,
    pub message_count: u64,
    pub matched_field: Option<IndexField>,
    pub score: u64,
}

/// An index match as plain sequences, with its score as a natural number.
pub struct IndexMatchView {
    pub session_id: Seq<char>,
    pub project_path: Seq<char>,
    pub first_prompt: Seq<char>,
    pub summary: Seq<char>,
    pub git_branch: Seq<char>,
    pub created: Seq<char>,
    pub modified: Seq<char>,
    pub message_count: u64,
    pub matched_field: Option<IndexField>,
    pub score: nat,
}

impl View for IndexMatch {
    type V = IndexMatchView;

    open spec fn view(&self) -> IndexMatchView {
        IndexMatchView {
            session_id: self.session_id@,
            project_path: self.project_path@,
            first_prompt: self.first_prompt@,
            summary: self.summary@,
            git_branch: self.git_branch@,
            created: self.created@,
            modified: self.modified@,
            message_count: self.message_count,
            matched_field: self.matched_field,
            score: self.score as nat,
        }
    }
}

/// The match that entry `e` of an index for `project` gives.
pub open spec fn match_of(project: Seq<char>, e: SessionIndexEntry, terms: Seq<Seq<char>>) -> IndexMatchView {
    IndexMatchView {
        session_id: e.session_id@,
        project_path: if e.project_path@.len() == 0 {
            project
        } else {
            e.project_path@
        },
        first_prompt: truncated(e.first_prompt@, MAX_SNIPPET_LEN as nat),
        summary: e.summary@,
        git_branch: e.git_branch@,
        created: e.created@,
        modified: e.modified@,
        message_count: e.message_count,
        matched_field: best_field(e, terms),
        score: entry_score(e, terms),
    }
}

/// The matches of the entries with a positive score, in order.
pub open spec fn entry_matches(
    project: Seq<char>,
    entries: Seq<SessionIndexEntry>,
    terms: Seq<Seq<char>>,
) -> Seq<IndexMatchView>
    decreases entries.len(),
{
    if entries.len() == 0 {
        Seq::empty()
    } else {
        entry_matches(project, entries.drop_last(), terms) + if entry_score(
            entries.last(),
            terms,
        ) > 0 {
            seq![match_of(project, entries.last(), terms)]
        } else {
            Seq::empty()
        }
    }
}

/// The project filter keeps this index.
pub open spec fn index_selected(ix: LoadedIndex, filter: Option<Seq<char>>) -> bool {
    match filter {
        None => true,
        Some(f) => contains_folded(ix.project_path@, f),
    }
}

/// All matches of the selected indexes, in discovery order.
pub open spec fn all_matches(
    indexes: Seq<LoadedIndex>,
    terms: Seq<Seq<char>>,
    filter: Option<Seq<char>>,
) -> Seq<IndexMatchView>
    decreases indexes.len(),
{
    if indexes.len() == 0 {
        Seq::empty()
    } else {
        all_matches(indexes.drop_last(), terms, filter) + if index_selected(
            indexes.last(),
            filter,
        ) {
            entry_matches(indexes.last().project_path@, indexes.last().entries@, terms)
        } else {
            Seq::empty()
        }
    }
}

/// `a` ranks strictly above `b`: a higher score, or an equal score and a later
/// modification time string.
pub open spec fn ranks_above(a: IndexMatchView, b: IndexMatchView) -> bool {
    a.score > b.score || (a.score == b.score && lex_lt(bytes_of(b.modified), bytes_of(a.modified)))
}

/// No match ranks above one that comes before it.
pub open spec fn ranked(s: Seq<IndexMatchView>) -> bool {
    forall|i: int, j: int| 0 <= i < j < s.len() ==> !ranks_above(#[trigger] s[j], #[trigger] s[i])
}

pub open spec fn match_views(v: Seq<IndexMatch>) -> Seq<IndexMatchView> {
    v.map_values(|m: IndexMatch| m@)
}

proof fn lemma_ranks_above_order(a: IndexMatchView, b: IndexMatchView, c: IndexMatchView)
    ensures
        !ranks_above(a, a),
        ranks_above(a, b) && ranks_above(b, c) ==> ranks_above(a, c),
{
    lemma_lex_lt_from_irreflexive(bytes_of(a.modified), 0);
    if ranks_above(a, b) && ranks_above(b, c) && a.score == b.score && b.score == c.score {
        lemma_lex_lt_from_transitive(bytes_of(c.modified), bytes_of(b.modified), bytes_of(a.modified), 0);
    }
}

proof fn lemma_multiset_insert<A>(s: Seq<A>, p: int, a: A)
    requires
        0 <= p <= s.len(),
    ensures
        s.insert(p, a).to_multiset() =~= s.to_multiset().insert(a),
{
    let t = s.insert(p, a);
    assert(t.remove(p) =~= s);
    t.to_multiset_ensures();
    assert(t[p] == a);
    assert(t.contains(a));
}

proof fn lemma_multiset_push<A>(s: Seq<A>, a: A)
    ensures
        s.push(a).to_multiset() =~= s.to_multiset().insert(a),
{
    s.to_multiset_ensures();
}

fn ranks_above_exec(a: &IndexMatch, b: &IndexMatch) -> (r: bool)
    ensures
        r == ranks_above(a@, b@),
{
    a.score > b.score || (a.score == b.score && lex_less(b.modified.as_str(), a.modified.as_str()))
}

/// Inserts `m` after every match that it does not rank above.
fn insert_ranked(v: &mut Vec<IndexMatch>, m: IndexMatch)
    requires
        ranked(match_views(old(v)@)),
    ensures
        ranked(match_views(final(v)@)),
        match_views(final(v)@).to_multiset() =~= match_views(old(v)@).to_multiset().insert(m@),
{
    let ghost old_views = match_views(v@);
    let mut p: usize = 0;
    while p < v.len() && !ranks_above_exec(&m, &v[p])
        invariant
            p <= v@.len(),
            old_views == match_views(v@),
            forall|k: int| 0 <= k < p ==> !ranks_above(m@, #[trigger] v@[k]@),
        decreases v@.len() - p,
    {
        p = p + 1;
    }
    v.insert(p, m);
    proof {
        let nv = match_views(v@);
        assert(nv =~= old_views.insert(p as int, m@));
        old_views.insert_ensures(p as int, m@);
        lemma_multiset_insert(old_views, p as int, m@);
        assert forall|i: int, j: int| 0 <= i < j < nv.len() implies !ranks_above(
            #[trigger] nv[j],
            #[trigger] nv[i],
        ) by {
            if j < p {
                assert(nv[i] == old_views[i] && nv[j] == old_views[j]);
            } else if j == p {
                assert(nv[i] == old_views[i]);
            } else if i > p {
                assert(nv[i] == old_views[i - 1] && nv[j] == old_views[j - 1]);
            } else if i == p {
                lemma_ranks_above_order(old_views[j - 1], m@, old_views[p as int]);
                lemma_ranks_above_order(old_views[p as int], m@, old_views[p as int]);
                assert(nv[j] == old_views[j - 1]);
            } else {
                assert(nv[i] == old_views[i] && nv[j] == old_views[j - 1]);
            }
        }
    }
}

fn project_match(project: &String, e: &SessionIndexEntry, score: u64, field: Option<IndexField>) -> (r: IndexMatch)
    ensures
        r@ == (IndexMatchView {
            session_id: e.session_id@,
            project_path: if e.project_path@.len() == 0 {
                project@
            } else {
                e.project_path@
            },
            first_prompt: truncated(e.first_prompt@, MAX_SNIPPET_LEN as nat),
            summary: e.summary@,
            git_branch: e.git_branch@,
            created: e.created@,
            modified: e.modified@,
            message_count: e.message_count,
            matched_field: field,
            score: score as nat,
        }),
{
    IndexMatch {
        session_id: e.session_id.clone(),
        project_path: if e.project_path.as_str().is_empty() {
            project.clone()
        } else {
            e.project_path.clone()
        },
        first_prompt: truncate(e.first_prompt.as_str(), MAX_SNIPPET_LEN),
        summary: e.summary.clone(),
        git_branch: e.git_branch.clone(),
        created: e.created.clone(),
        modified: e.modified.clone(),
        message_count: e.message_count,
        matched_field: field,
        score,
    }
}

/// Scores every entry of the indexes that the filter keeps and ranks those that
/// match: highest score first, then latest modification time.
pub fn rank_index_matches(
    indexes: &Vec<LoadedIndex>,
    query_terms: &[String],
    project_filter: Option<&str>,
) -> (r: Vec<IndexMatch>)
    requires
        7 * query_terms@.len() <= u64::MAX,
    ensures
        ranked(match_views(r@)),
        match_views(r@).to_multiset() =~= all_matches(
            indexes@,
            term_views(query_terms@),
            match project_filter {
                Some(f) => Some(f@),
                None => None,
            },
        ).to_multiset(),
{
    let ghost terms = term_views(query_terms@);
    let ghost filter = match project_filter {
        Some(f) => Some(f@),
        None => None,
    };
    let filter_lower = match project_filter {
        Some(f) => Some(to_lower(f)),
        None => None,
    };
    let mut result: Vec<IndexMatch> = Vec::new();
    let mut i: usize = 0;
    assert(match_views(result@) =~= Seq::<IndexMatchView>::empty());
    assert(all_matches(indexes@.subrange(0, 0), terms, filter) =~= Seq::<IndexMatchView>::empty());
    while i < indexes.len()
        invariant
            i <= indexes@.len(),
            7 * query_terms@.len() <= u64::MAX,
            terms == term_views(query_terms@),
            filter == match project_filter {
                Some(f) => Some(f@),
                None => None::<Seq<char>>,
            },
            match project_filter {
                Some(f) => filter_lower matches Some(l) && l@ == crate::text::lower_of(f@),
                None => filter_lower is None,
            },
            ranked(match_views(result@)),
            match_views(result@).to_multiset() =~= all_matches(
                indexes@.subrange(0, i as int),
                terms,
                filter,
            ).to_multiset(),
        decreases indexes@.len() - i,
    {
        let ix = &indexes[i];
        let ghost before = all_matches(indexes@.subrange(0, i as int), terms, filter);
        let selected = match &filter_lower {
            Some(l) => {
                let p = to_lower(ix.project_path.as_str());
                contains_str(p.as_str(), l.as_str())
            },
            None => true,
        };
        assert(indexes@.subrange(0, i + 1).drop_last() =~= indexes@.subrange(0, i as int));
        assert(indexes@.subrange(0, i + 1).last() == *ix);
        if selected {
            let mut j: usize = 0;
            while j < ix.entries.len()
                invariant
                    j <= ix.entries@.len(),
                    7 * query_terms@.len() <= u64::MAX,
                    terms == term_views(query_terms@),
                    ranked(match_views(result@)),
                    match_views(result@).to_multiset() =~= (before + entry_matches(
                        ix.project_path@,
                        ix.entries@.subrange(0, j as int),
                        terms,
                    )).to_multiset(),
                decreases ix.entries@.len() - j,
            {
                let e = &ix.entries[j];
                let ghost prev = entry_matches(
                    ix.project_path@,
                    ix.entries@.subrange(0, j as int),
                    terms,
                );
                assert(ix.entries@.subrange(0, j + 1).drop_last() =~= ix.entries@.subrange(
                    0,
                    j as int,
                ));
                assert(ix.entries@.subrange(0, j + 1).last() == *e);
                let (score, field) = score_index_entry(e, query_terms);
                if score > 0 {
                    let m = project_match(&ix.project_path, e, score, field);
                    assert(m@ == match_of(ix.project_path@, *e, terms));
                    insert_ranked(&mut result, m);
                    proof {
                        assert(prev + seq![m@] =~= prev.push(m@));
                        assert(before + prev.push(m@) =~= (before + prev).push(m@));
                        lemma_multiset_push(before + prev, m@);
                    }
                } else {
                    assert(prev + Seq::<IndexMatchView>::empty() =~= prev);
                }
                j = j + 1;
            }
            assert(ix.entries@.subrange(0, j as int) =~= ix.entries@);
        } else {
            assert(before + Seq::<IndexMatchView>::empty() =~= before);
        }
        i = i + 1;
    }
    assert(indexes@.subrange(0, i as int) =~= indexes@);
    result
}

/// Index search for a query: its whitespace-separated words are the terms.
/// A query with more words than a 64-bit score can weigh yields no matches.
pub fn search_index(query: &str, project_filter: Option<&str>, indexes: &Vec<LoadedIndex>) -> (r: Vec<IndexMatch>)
    ensures
        7 * words_of(query@).len() <= u64::MAX ==> {
            &&& ranked(match_views(r@))
            &&& match_views(r@).to_multiset() =~= all_matches(
                indexes@,
                words_of(query@),
                match project_filter {
                    Some(f) => Some(f@),
                    None => None,
                },
            ).to_multiset()
        },
        7 * words_of(query@).len() > u64::MAX ==> r@.len() == 0,
{
    let terms = split_terms(query);
    assert(term_views(terms@) =~= words_of(query@));
    if terms.len() as u128 * 7 > u64::MAX as u128 {
        return Vec::new();
    }
    rank_index_matches(indexes, terms.as_slice(), project_filter)
}

} // verus!
