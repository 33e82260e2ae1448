//! The fuzzy selection engine: scores the unified item list against an
//! incrementally edited query, keeps the matches sorted (session-like items
//! first, then by descending score, ties in encounter order), and tracks a
//! selection cursor with wraparound.

use crate::item::{display_text, display_text_spec, ivs, ItemV, SessionItem};
use fuzzy_matcher::skim::SkimMatcherV2;
use fuzzy_matcher::FuzzyMatcher;
use vstd::prelude::*;

verus! {

/// What the fuzzy matcher returns for a text and a pattern: `None` when the
/// pattern does not match, otherwise the score and the matched character
/// offsets. The result is a pure function of the two strings; its heuristic
/// is beyond stating, so it is only named.
pub uninterp spec fn fuzzy_match_of(text: Seq<char>, pattern: Seq<char>) -> Option<
    (i64, Seq<usize>),
>;

/// Relies on fuzzy_matcher's SkimMatcherV2 under its default configuration:
/// fuzzy_indices returns a score and matched offsets that depend only on the
/// text and the pattern.
#[verifier::external_body]
fn fuzzy_indices(text: &str, pattern: &str) -> (r: Option<(i64, Vec<usize>)>)
    ensures
        match r {
            Some((s, idx)) => fuzzy_match_of(text@, pattern@) == Some((s, idx@)),
            None => fuzzy_match_of(text@, pattern@) is None,
        },
{
    SkimMatcherV2::default().fuzzy_indices(text, pattern)
}

/// Does the query match the item's rendered text?
pub open spec fn keeps(item: ItemV, q: Seq<char>) -> bool {
    fuzzy_match_of(display_text_spec(item), q) is Some
}

/// The match score of an item the query keeps.
pub open spec fn score_of(item: ItemV, q: Seq<char>) -> i64 {
    fuzzy_match_of(display_text_spec(item), q).unwrap().0
}

/// The matched character offsets of an item the query keeps.
pub open spec fn indices_of(item: ItemV, q: Seq<char>) -> Seq<usize> {
    fuzzy_match_of(display_text_spec(item), q).unwrap().1
}

/// The sort category: session-like items come before directories.
pub open spec fn cat_of(item: ItemV) -> int {
    match item {
        ItemV::Directory { .. } => 1,
        _ => 0,
    }
}

/// Does `a` sort strictly before `b` under the query: lower category first,
/// then strictly higher score?
pub open spec fn sr_before(a: ItemV, b: ItemV, q: Seq<char>) -> bool {
    cat_of(a) < cat_of(b) || (cat_of(a) == cat_of(b) && score_of(a, q) > score_of(b, q))
}

/// The items the query keeps, in encounter order.
pub open spec fn matching(items: Seq<ItemV>, q: Seq<char>) -> Seq<ItemV>
    decreases items.len(),
{
    if items.len() == 0 {
        Seq::empty()
    } else {
        matching(items.drop_last(), q) + (if keeps(items.last(), q) {
            seq![items.last()]
        } else {
            Seq::empty()
        })
    }
}

/// `x` placed into the sorted sequence `s`, after any item it does not
/// strictly precede, so that ties keep their encounter order.
pub open spec fn insert_item(x: ItemV, s: Seq<ItemV>, q: Seq<char>) -> Seq<ItemV>
    decreases s.len(),
{
    if s.len() == 0 {
        seq![x]
    } else if sr_before(x, s[0], q) {
        seq![x] + s
    } else {
        seq![s[0]] + insert_item(x, s.drop_first(), q)
    }
}

/// Stable insertion sort of the kept items.
pub open spec fn sort_items(s: Seq<ItemV>, q: Seq<char>) -> Seq<ItemV>
    decreases s.len(),
{
    if s.len() == 0 {
        Seq::empty()
    } else {
        insert_item(s.last(), sort_items(s.drop_last(), q), q)
    }
}

/// The items of one search pass, in display order: the kept items, sorted.
pub open spec fn result_items(items: Seq<ItemV>, q: Seq<char>) -> Seq<ItemV> {
    sort_items(matching(items, q), q)
}

/// Is a result ordering in display order under the query: no later item
/// strictly precedes an earlier one?
pub open spec fn sorted_items(r: Seq<ItemV>, q: Seq<char>) -> bool {
    forall|i: int, j: int|
        0 <= i < j < r.len() ==> !sr_before(#[trigger] r[j], #[trigger] r[i], q)
}

proof fn lemma_item_lower_bound(x: ItemV, s: Seq<ItemV>, b: ItemV, q: Seq<char>)
    requires
        !sr_before(x, b, q),
        forall|u: int| 0 <= u < s.len() ==> !sr_before(#[trigger] s[u], b, q),
    ensures
        forall|k: int|
            0 <= k < insert_item(x, s, q).len() ==> !sr_before(
                #[trigger] insert_item(x, s, q)[k],
                b,
                q,
            ),
    decreases s.len(),
{
    if s.len() > 0 && !sr_before(x, s[0], q) {
        assert forall|u: int| 0 <= u < s.drop_first().len() implies !sr_before(
            #[trigger] s.drop_first()[u],
            b,
            q,
        ) by {
            assert(s.drop_first()[u] == s[u + 1]);
        }
        lemma_item_lower_bound(x, s.drop_first(), b, q);
        assert forall|k: int| 0 <= k < insert_item(x, s, q).len() implies !sr_before(
            #[trigger] insert_item(x, s, q)[k],
            b,
            q,
        ) by {
            if k > 0 {
                assert(insert_item(x, s, q)[k] == insert_item(x, s.drop_first(), q)[k - 1]);
            }
        }
    }
}

proof fn lemma_insert_item_sorted(x: ItemV, s: Seq<ItemV>, q: Seq<char>)
    requires
        sorted_items(s, q),
    ensures
        sorted_items(insert_item(x, s, q), q),
        insert_item(x, s, q).len() == s.len() + 1,
    decreases s.len(),
{
    if s.len() == 0 {
    } else if sr_before(x, s[0], q) {
        let r = seq![x] + s;
        assert forall|i: int, j: int| 0 <= i < j < r.len() implies !sr_before(
            #[trigger] r[j],
            #[trigger] r[i],
            q,
        ) by {
            if i == 0 {
                if j > 1 {
                    assert(r[j] == s[j - 1]);
                    assert(!sr_before(s[j - 1], s[0], q));
                }
            } else {
                assert(r[i] == s[i - 1] && r[j] == s[j - 1]);
            }
        }
    } else {
        let rest = s.drop_first();
        assert forall|i: int, j: int| 0 <= i < j < rest.len() implies !sr_before(
            #[trigger] rest[j],
            #[trigger] rest[i],
            q,
        ) by {
            assert(rest[i] == s[i + 1] && rest[j] == s[j + 1]);
        }
        lemma_insert_item_sorted(x, rest, q);
        assert forall|u: int| 0 <= u < rest.len() implies !sr_before(
            #[trigger] rest[u],
            s[0],
            q,
        ) by {
            assert(rest[u] == s[u + 1]);
        }
        lemma_item_lower_bound(x, rest, s[0], q);
        let r = seq![s[0]] + insert_item(x, rest, q);
        assert forall|i: int, j: int| 0 <= i < j < r.len() implies !sr_before(
            #[trigger] r[j],
            #[trigger] r[i],
            q,
        ) by {
            if i == 0 {
                assert(r[j] == insert_item(x, rest, q)[j - 1]);
            } else {
                assert(r[i] == insert_item(x, rest, q)[i - 1]);
                assert(r[j] == insert_item(x, rest, q)[j - 1]);
            }
        }
    }
}

/// Search results are genuinely sorted: session-like items before
/// directories, then by strictly descending score, so no entry strictly
/// precedes an earlier one.
pub proof fn lemma_result_items_sorted(items: Seq<ItemV>, q: Seq<char>)
    ensures
        sorted_items(result_items(items, q), q),
    decreases items.len(),
{
    lemma_sort_items_sorted(matching(items, q), q);
}

proof fn lemma_sort_items_sorted(s: Seq<ItemV>, q: Seq<char>)
    ensures
        sorted_items(sort_items(s, q), q),
        sort_items(s, q).len() == s.len(),
    decreases s.len(),
{
    if s.len() > 0 {
        lemma_sort_items_sorted(s.drop_last(), q);
        lemma_insert_item_sorted(s.last(), sort_items(s.drop_last(), q), q);
    }
}

proof fn lemma_insert_item_multiset(x: ItemV, s: Seq<ItemV>, q: Seq<char>)
    ensures
        insert_item(x, s, q).to_multiset() == s.to_multiset().insert(x),
    decreases s.len(),
{
    broadcast use vstd::seq_lib::to_multiset_insert;
    broadcast use vstd::multiset::group_multiset_axioms;

    if s.len() == 0 {
        assert(seq![x] =~= s.insert(0, x));
    } else if sr_before(x, s[0], q) {
        assert(seq![x] + s =~= s.insert(0, x));
    } else {
        let rest = s.drop_first();
        lemma_insert_item_multiset(x, rest, q);
        let t = insert_item(x, rest, q);
        assert(seq![s[0]] + t =~= t.insert(0, s[0]));
        assert(s =~= rest.insert(0, s[0]));
        assert(insert_item(x, s, q).to_multiset() == rest.to_multiset().insert(x).insert(s[0]));
        assert(s.to_multiset().insert(x) == rest.to_multiset().insert(s[0]).insert(x));
        assert(rest.to_multiset().insert(x).insert(s[0]) =~= rest.to_multiset().insert(
            s[0],
        ).insert(x));
    }
}

/// The sort loses and invents nothing: the ordered results are a permutation
/// of the matching items.
pub proof fn lemma_sort_items_permutes(s: Seq<ItemV>, q: Seq<char>)
    ensures
        sort_items(s, q).to_multiset() == s.to_multiset(),
    decreases s.len(),
{
    if s.len() > 0 {
        lemma_sort_items_permutes(s.drop_last(), q);
        lemma_insert_item_multiset(s.last(), sort_items(s.drop_last(), q), q);
        s.drop_last().to_multiset_ensures();
        assert(s.drop_last().push(s.last()).to_multiset() =~= s.drop_last().to_multiset().insert(
            s.last(),
        ));
        assert(s.drop_last().push(s.last()) =~= s);
        assert(s.to_multiset() == s.drop_last().push(s.last()).to_multiset());
        assert(sort_items(s, q).to_multiset() == s.drop_last().to_multiset().insert(s.last()));
    } else {
        assert(sort_items(s, q) =~= s);
    }
}

/// A query that matches nothing yields no results.
pub proof fn lemma_no_match_empty(items: Seq<ItemV>, q: Seq<char>)
    requires
        forall|i: int| 0 <= i < items.len() ==> !keeps(#[trigger] items[i], q),
    ensures
        result_items(items, q) == Seq::<ItemV>::empty(),
    decreases items.len(),
{
    if items.len() == 0 {
        assert(matching(items, q) =~= Seq::<ItemV>::empty());
    } else {
        lemma_no_match_empty(items.drop_last(), q);
        assert(matching(items, q) =~= matching(items.drop_last(), q));
    }
}

/// One search result: the matched item, its score, and the character offsets
/// of the matched query characters in the item's rendered text.
#[derive(Clone)]
pub struct SearchResult {
    /// The matched item.
    pub item: SessionItem,
    /// Fuzzy match score; higher is better.
    pub score: i64,
    /// Character indices of the rendered text that matched.
    pub indices: Vec<usize>,
}

/// A result entry is faithful to its item under the query.
pub open spec fn wf_result(r: SearchResult, q: Seq<char>) -> bool {
    keeps(r.item@, q) && r.score == score_of(r.item@, q) && r.indices@ == indices_of(r.item@, q)
}

pub open spec fn all_wf(rs: Seq<SearchResult>, q: Seq<char>) -> bool {
    forall|i: int| 0 <= i < rs.len() ==> wf_result(#[trigger] rs[i], q)
}

/// The item views of a result sequence, in order.
pub open spec fn items_of(rs: Seq<SearchResult>) -> Seq<ItemV> {
    rs.map_values(|r: SearchResult| r.item@)
}

impl SessionItem {
    /// An equal copy of the item.
    pub fn duplicate(&self) -> (r: SessionItem)
        ensures
            r == *self,
    {
        match self {
            SessionItem::ExistingSession { name, directory, is_current } => {
                SessionItem::ExistingSession {
                    name: name.clone(),
                    directory: directory.clone(),
                    is_current: *is_current,
                }
            },
            SessionItem::ResurrectableSession { name, elapsed_secs } => {
                SessionItem::ResurrectableSession {
                    name: name.clone(),
                    elapsed_secs: *elapsed_secs,
                }
            },
            SessionItem::Directory { path, session_name } => {
                SessionItem::Directory {
                    path: path.clone(),
                    session_name: session_name.clone(),
                }
            },
        }
    }

    fn category(&self) -> (c: usize)
        ensures
            c as int == cat_of(self@),
    {
        match self {
            SessionItem::Directory { .. } => 1,
            _ => 0,
        }
    }
}

proof fn lemma_insert_item_at(x: ItemV, s: Seq<ItemV>, q: Seq<char>, j: int)
    requires
        0 <= j <= s.len(),
        forall|u: int| 0 <= u < j ==> !sr_before(x, #[trigger] s[u], q),
        j < s.len() ==> sr_before(x, s[j], q),
    ensures
        insert_item(x, s, q) == s.take(j) + seq![x] + s.skip(j),
    decreases s.len(),
{
    if s.len() == 0 {
        assert(s.take(0) + seq![x] + s.skip(0) =~= seq![x]);
    } else if j == 0 {
        assert(s.take(0) + seq![x] + s.skip(0) =~= seq![x] + s);
    } else {
        lemma_insert_item_at(x, s.drop_first(), q, j - 1);
        assert(s.drop_first().take(j - 1) =~= s.take(j).drop_first());
        assert(s.drop_first().skip(j - 1) =~= s.skip(j));
        assert(seq![s[0]] + (s.drop_first().take(j - 1) + seq![x] + s.drop_first().skip(j - 1))
            =~= s.take(j) + seq![x] + s.skip(j));
    }
}

fn insert_result(out: &mut Vec<SearchResult>, x: SearchResult, term: &str)
    requires
        wf_result(x, term@),
        all_wf(old(out)@, term@),
    ensures
        all_wf(final(out)@, term@),
        items_of(final(out)@) == insert_item(x.item@, items_of(old(out)@), term@),
{
    let n = out.len();
    let mut j: usize = 0;
    let mut found = false;
    let xc = x.item.category();
    while j < n && !found
        invariant
            n == out@.len(),
            out@ == old(out)@,
            all_wf(out@, term@),
            wf_result(x, term@),
            xc as int == cat_of(x.item@),
            j <= n,
            forall|u: int| 0 <= u < j ==> !sr_before(x.item@, #[trigger] items_of(out@)[u], term@),
            found ==> j < n && sr_before(x.item@, items_of(out@)[j as int], term@),
        decreases n - j, (if found { 0int } else { 1int }),
    {
        let oc = out[j].item.category();
        let before = if xc < oc {
            true
        } else if xc == oc {
            x.score > out[j].score
        } else {
            false
        };
        proof {
            assert(wf_result(out@[j as int], term@));
            assert(items_of(out@)[j as int] == out@[j as int].item@);
            assert(before == sr_before(x.item@, items_of(out@)[j as int], term@));
        }
        if before {
            found = true;
        } else {
            j = j + 1;
        }
    }
    proof {
        lemma_insert_item_at(x.item@, items_of(out@), term@, j as int);
    }
    let ghost pre = out@;
    let ghost xv = x;
    out.insert(j, x);
    proof {
        assert(out@ == pre.insert(j as int, xv));
        assert(items_of(out@) =~= items_of(pre).take(j as int) + seq![xv.item@] + items_of(
            pre,
        ).skip(j as int));
        assert forall|i: int| 0 <= i < out@.len() implies wf_result(#[trigger] out@[i], term@) by {
            if i < j {
                assert(out@[i] == pre[i]);
            } else if i > j {
                assert(out@[i] == pre[i - 1]);
            } else {
                assert(out@[i] == xv);
            }
        }
    }
}

/// Incremental fuzzy search over the unified item list, with a selection
/// cursor. Idle (no query) and searching (non-empty query) are the two
/// states; the query alone drives the transition.
pub struct SearchEngine {
    /// Current query.
    search_term: String,
    /// Current results, sorted.
    results: Vec<SearchResult>,
    /// Selected result index.
    selected_index: Option<usize>,
    /// Whether a non-empty query is active.
    is_searching: bool,
}

impl SearchEngine {
    /// The query's characters.
    pub closed spec fn spec_term(&self) -> Seq<char> {
        self.search_term@
    }

    /// The current results.
    pub closed spec fn spec_results(&self) -> Seq<SearchResult> {
        self.results@
    }

    /// The selection cursor.
    pub closed spec fn spec_selected(&self) -> Option<usize> {
        self.selected_index
    }

    /// Whether the engine is in its searching state.
    pub closed spec fn spec_searching(&self) -> bool {
        self.is_searching
    }

    /// Well-formedness: the searching flag mirrors query non-emptiness, idle
    /// engines hold no results, and the cursor stays in range.
    pub open spec fn inv(&self) -> bool {
        &&& self.spec_searching() == (self.spec_term().len() > 0)
        &&& (!self.spec_searching() ==> self.spec_results().len() == 0)
        &&& (match self.spec_selected() {
            Some(i) => i < self.spec_results().len(),
            None => true,
        })
        &&& all_wf(self.spec_results(), self.spec_term())
    }

    /// An idle engine: empty query, no results, no selection.
    pub fn new() -> (e: SearchEngine)
        ensures
            e.inv(),
            e.spec_term().len() == 0,
            !e.spec_searching(),
            e.spec_results().len() == 0,
            e.spec_selected() is None,
    {
        SearchEngine {
            search_term: String::new(),
            results: Vec::new(),
            selected_index: None,
            is_searching: false,
        }
    }

    /// Replaces the query and recomputes the results in full. An empty query
    /// enters the idle state with no results and no selection. A non-empty
    /// query keeps exactly the matching items, sorted session-like first and
    /// then by descending score with ties in encounter order; the cursor is
    /// unset when nothing matched, clamped to the last result when it ran
    /// past the end, defaulted to the first result when it was unset, and
    /// kept otherwise.
    pub fn update_search(&mut self, term: String, items: &Vec<SessionItem>)
        requires
            old(self).inv(),
        ensures
            final(self).inv(),
            final(self).spec_term() == term@,
            final(self).spec_searching() == (term@.len() > 0),
            term@.len() == 0 ==> final(self).spec_results().len() == 0 && (final(
                self).spec_selected() is None),
            term@.len() > 0 ==> {
                let ordered = result_items(ivs(items@), term@);
                &&& items_of(final(self).spec_results()) == ordered
                &&& all_wf(final(self).spec_results(), term@)
                &&& final(self).spec_selected() == spec_repair(
                    old(self).spec_selected(),
                    ordered.len() as int,
                )
            },
    {
        self.search_term = term;
        let searching = !self.search_term.as_str().is_empty();
        self.is_searching = searching;
        if searching {
            self.perform_search(items);
        } else {
            self.results = Vec::new();
            self.selected_index = None;
        }
    }

    /// Appends one character to the query and recomputes.
    pub fn add_char(&mut self, c: char, items: &Vec<SessionItem>)
        requires
            old(self).inv(),
        ensures
            final(self).inv(),
            final(self).spec_term() == old(self).spec_term().push(c),
            final(self).spec_searching(),
            ({
                let ordered = result_items(ivs(items@), old(self).spec_term().push(c));
                &&& items_of(final(self).spec_results()) == ordered
                &&& final(self).spec_selected() == spec_repair(
                    old(self).spec_selected(),
                    ordered.len() as int,
                )
            }),
    {
        let mut term = self.search_term.clone();
        push_char(&mut term, c);
        self.update_search(term, items);
    }

    /// Removes the last character of the query (if any) and recomputes.
    pub fn backspace(&mut self, items: &Vec<SessionItem>)
        requires
            old(self).inv(),
        ensures
            final(self).inv(),
            final(self).spec_term() == old(self).spec_term().take(
                if old(self).spec_term().len() > 0 {
                    old(self).spec_term().len() - 1
                } else {
                    0
                },
            ),
            final(self).spec_term().len() == 0 ==> final(self).spec_results().len() == 0 && (final(
                self).spec_selected() is None),
            final(self).spec_term().len() > 0 ==> {
                let ordered = result_items(ivs(items@), final(self).spec_term());
                &&& items_of(final(self).spec_results()) == ordered
                &&& final(self).spec_selected() == spec_repair(
                    old(self).spec_selected(),
                    ordered.len() as int,
                )
            },
    {
        let len = self.search_term.as_str().unicode_len();
        let term = if len == 0 {
            proof {
                assert(self.search_term@.take(0) =~= self.search_term@);
            }
            self.search_term.clone()
        } else {
            let t = self.search_term.as_str().substring_char(0, len - 1);
            proof {
                assert(t@ =~= self.search_term@.take(len - 1));
            }
            t.to_owned()
        };
        self.update_search(term, items);
    }

    /// Clears the query, the results and the selection: the idle state.
    pub fn clear(&mut self)
        ensures
            final(self).inv(),
            final(self).spec_term().len() == 0,
            !final(self).spec_searching(),
            final(self).spec_results().len() == 0,
            final(self).spec_selected() is None,
    {
        self.search_term = String::new();
        self.results = Vec::new();
        self.selected_index = None;
        self.is_searching = false;
    }

    /// The current query.
    pub fn search_term(&self) -> (r: &str)
        ensures
            r@ == self.spec_term(),
    {
        self.search_term.as_str()
    }

    /// Whether a non-empty query is active.
    pub fn is_searching(&self) -> (r: bool)
        ensures
            r == self.spec_searching(),
    {
        self.is_searching
    }

    /// The current results, sorted.
    pub fn results(&self) -> (r: &Vec<SearchResult>)
        ensures
            r@ == self.spec_results(),
    {
        &self.results
    }

    /// The selection cursor.
    pub fn selected_index(&self) -> (r: Option<usize>)
        ensures
            r == self.spec_selected(),
    {
        self.selected_index
    }

    /// Moves the cursor up: from unset to the last result, from the first
    /// result around to the last, otherwise one up. With no results the
    /// cursor stays unset.
    pub fn move_selection_up(&mut self)
        requires
            old(self).inv(),
        ensures
            final(self).inv(),
            final(self).spec_term() == old(self).spec_term(),
            final(self).spec_results() == old(self).spec_results(),
            final(self).spec_searching() == old(self).spec_searching(),
            final(self).spec_selected() == spec_move_up(
                old(self).spec_selected(),
                old(self).spec_results().len() as int,
            ),
    {
        let len = self.results.len();
        match self.selected_index {
            Some(sel) => {
                if sel == 0 {
                    self.selected_index = Some(len - 1);
                } else {
                    self.selected_index = Some(sel - 1);
                }
            },
            None => {
                if len > 0 {
                    self.selected_index = Some(len - 1);
                }
            },
        }
    }

    /// Moves the cursor down: from unset to the first result, from the last
    /// result around to the first, otherwise one down. With no results the
    /// cursor stays unset.
    pub fn move_selection_down(&mut self)
        requires
            old(self).inv(),
        ensures
            final(self).inv(),
            final(self).spec_term() == old(self).spec_term(),
            final(self).spec_results() == old(self).spec_results(),
            final(self).spec_searching() == old(self).spec_searching(),
            final(self).spec_selected() == spec_move_down(
                old(self).spec_selected(),
                old(self).spec_results().len() as int,
            ),
    {
        let len = self.results.len();
        match self.selected_index {
            Some(sel) => {
                if sel == len - 1 {
                    self.selected_index = Some(0);
                } else {
                    self.selected_index = Some(sel + 1);
                }
            },
            None => {
                if len > 0 {
                    self.selected_index = Some(0);
                }
            },
        }
    }

    /// The selected result's item, if a result is selected.
    pub fn selected_item(&self) -> (r: Option<&SessionItem>)
        requires
            self.inv(),
        ensures
            match self.spec_selected() {
                Some(i) => r matches Some(it) && *it == self.spec_results()[i as int].item,

                None => r is None,
            },
    {
        match self.selected_index {
            Some(i) => Some(&self.results[i].item),
            None => None,
        }
    }

    fn perform_search(&mut self, items: &Vec<SessionItem>)
        requires
            old(self).spec_term().len() > 0,
        ensures
            final(self).spec_term() == old(self).spec_term(),
            final(self).spec_searching() == old(self).spec_searching(),
            items_of(final(self).spec_results()) == result_items(
                ivs(items@),
                old(self).spec_term(),
            ),
            all_wf(final(self).spec_results(), old(self).spec_term()),
            final(self).spec_selected() == spec_repair(
                old(self).spec_selected(),
                result_items(ivs(items@), old(self).spec_term()).len() as int,
            ),
    {
        let ghost q = self.search_term@;
        let n = items.len();
        let mut out: Vec<SearchResult> = Vec::new();
        let mut i: usize = 0;
        proof {
            assert(items_of(out@) =~= Seq::<ItemV>::empty());
            assert(matching(ivs(items@).take(0), q) =~= Seq::<ItemV>::empty());
        }
        while i < n
            invariant
                n == items@.len(),
                q == self.search_term@,
                i <= n,
                all_wf(out@, q),
                items_of(out@) == sort_items(matching(ivs(items@).take(i as int), q), q),
            decreases n - i,
        {
            let text = display_text(&items[i]);
            proof {
                assert(ivs(items@).take(i as int + 1).drop_last() =~= ivs(items@).take(i as int));
                assert(ivs(items@).take(i as int + 1).last() == items@[i as int]@);
            }
            match fuzzy_indices(text.as_str(), self.search_term.as_str()) {
                Some((score, indices)) => {
                    let r = SearchResult { item: items[i].duplicate(), score, indices };
                    proof {
                        assert(wf_result(r, q));
                        assert(matching(ivs(items@).take(i as int + 1), q) =~= matching(
                            ivs(items@).take(i as int),
                            q,
                        ).push(items@[i as int]@));
                        assert(matching(ivs(items@).take(i as int + 1), q).drop_last() =~= matching(
                            ivs(items@).take(i as int),
                            q,
                        ));
                    }
                    insert_result(&mut out, r, self.search_term.as_str());
                },
                None => {
                    proof {
                        assert(matching(ivs(items@).take(i as int + 1), q) =~= matching(
                            ivs(items@).take(i as int),
                            q,
                        ));
                    }
                },
            }
            i = i + 1;
        }
        proof {
            assert(ivs(items@).take(n as int) =~= ivs(items@));
        }
        let m = out.len();
        self.results = out;
        if m == 0 {
            self.selected_index = None;
        } else {
            match self.selected_index {
                Some(idx) => {
                    if idx >= m {
                        self.selected_index = Some(m - 1);
                    }
                },
                None => {
                    self.selected_index = Some(0);
                },
            }
        }
    }
}

/// The cursor after a new result list of length `len`: unset when the list is
/// empty, clamped to the end when it ran past, the first result when it was
/// unset, and otherwise unchanged.
pub open spec fn spec_repair(prev: Option<usize>, len: int) -> Option<usize> {
    if len == 0 {
        None
    } else {
        match prev {
            Some(i) => if i as int >= len {
                Some((len - 1) as usize)
            } else {
                Some(i)
            },
            None => Some(0usize),
        }
    }
}

/// The cursor after one upward move over a list of length `len`.
pub open spec fn spec_move_up(prev: Option<usize>, len: int) -> Option<usize> {
    match prev {
        Some(i) => if i == 0 {
            Some((len - 1) as usize)
        } else {
            Some((i - 1) as usize)
        },
        None => if len > 0 {
            Some((len - 1) as usize)
        } else {
            None
        },
    }
}

/// The cursor after one downward move over a list of length `len`.
pub open spec fn spec_move_down(prev: Option<usize>, len: int) -> Option<usize> {
    match prev {
        Some(i) => if i as int == len - 1 {
            Some(0usize)
        } else {
            Some((i + 1) as usize)
        },
        None => if len > 0 {
            Some(0usize)
        } else {
            None
        },
    }
}

/// Relies on String::push: appends exactly the one character.
#[verifier::external_body]
fn push_char(s: &mut String, c: char)
    ensures
        final(s)@ == old(s)@.push(c),
{
    s.push(c);
}

} // verus!
