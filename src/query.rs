//! The query engine: which catalog entries a query keeps, and in what order.
use vstd::prelude::*;

use crate::photo::{
    filter_admits, lemma_supported_extensions_distinct, supported_extension_seq, supported_extensions,
    Photo, SizeFilter,
};
use crate::text::{
    char_vec, chars_le, is_infix, lemma_empty_is_infix, lemma_lex_le_refl, lemma_lex_le_total,
    lemma_lex_le_trans, lex_le, lower_of, lowercase, str_contains,
};

verus! {

/// The field that a view is sorted by.
#[derive(Clone, Copy, Debug, PartialEq, Eq, Structural)]
pub enum SortCriteria {
    Name,
    Date,
    Size,
}

/// The direction of a sort.
#[derive(Clone, Copy, Debug, PartialEq, Eq, Structural)]
pub enum SortOrder {
    Ascending,
    Descending,
}

/// Whether entries with one extension are shown.
#[derive(Clone, Debug)]
pub struct ExtensionToggle {
    pub extension: String,
    pub enabled: bool,
}

/// The search, filter and sort settings that select a view of a catalog.
#[derive(Clone, Debug)]
pub struct QueryState {
    /// Case-insensitive text that a name must contain.
    pub search_term: String,
    /// Per-extension switches; an extension that has none is not shown.
    pub extension_enabled: Vec<ExtensionToggle>,
    pub size_filter: SizeFilter,
    pub sort_criteria: SortCriteria,
    pub sort_order: SortOrder,
}

/// The first switch for `ext` exists and is on. An extension without a
/// switch is off.
pub open spec fn extension_on(toggles: Seq<ExtensionToggle>, ext: Seq<char>) -> bool {
    exists|i: int|
        0 <= i < toggles.len() && #[trigger] toggles[i].extension@ == ext && toggles[i].enabled
            && forall|j: int| 0 <= j < i ==> toggles[j].extension@ != ext
}

/// The search term is empty, or the name contains it, both folded to lower
/// case.
pub open spec fn search_matches(name: Seq<char>, term: Seq<char>) -> bool {
    term.len() == 0 || is_infix(lower_of(term), lower_of(name))
}

/// The entry passes the search, the extension switches and the size filter.
pub open spec fn passes(p: Photo, q: QueryState) -> bool {
    &&& search_matches(p.name@, q.search_term@)
    &&& extension_on(q.extension_enabled@, p.extension@)
    &&& filter_admits(q.size_filter, p.area())
}

/// `Some` dates in order, unknown dates after every known one (in either
/// direction) and equal among themselves.
pub open spec fn date_le(a: Option<u64>, b: Option<u64>, order: SortOrder) -> bool {
    match (a, b) {
        (Some(x), Some(y)) => match order {
            SortOrder::Ascending => x <= y,
            SortOrder::Descending => y <= x,
        },
        (Some(_), None) => true,
        (None, Some(_)) => false,
        (None, None) => true,
    }
}

/// `a` may come before `b` in a view sorted by `criteria` in `order`.
pub open spec fn sort_le(a: Photo, b: Photo, criteria: SortCriteria, order: SortOrder) -> bool {
    match criteria {
        SortCriteria::Name => match order {
            SortOrder::Ascending => lex_le(a.name@, b.name@),
            SortOrder::Descending => lex_le(b.name@, a.name@),
        },
        SortCriteria::Size => match order {
            SortOrder::Ascending => a.size <= b.size,
            SortOrder::Descending => b.size <= a.size,
        },
        SortCriteria::Date => date_le(a.modified_at, b.modified_at, order),
    }
}

/// The two entries carry the same value of the sort key.
pub open spec fn same_key(a: Photo, b: Photo, criteria: SortCriteria) -> bool {
    match criteria {
        SortCriteria::Name => a.name@ == b.name@,
        SortCriteria::Size => a.size == b.size,
        SortCriteria::Date => a.modified_at == b.modified_at,
    }
}

/// `v` is the view of `catalog` under `q`, as indices into the catalog: each
/// entry that passes the query exactly once and nothing else, sorted by the
/// query's key and direction, with entries that tie kept in catalog order.
pub open spec fn is_view(catalog: Seq<Photo>, q: QueryState, v: Seq<usize>) -> bool {
    &&& forall|i: int, j: int| 0 <= i < j < v.len() ==> v[i] != v[j]
    &&& forall|i: int|
        0 <= i < v.len() ==> #[trigger] v[i] < catalog.len() && passes(catalog[v[i] as int], q)
    &&& forall|k: int|
        0 <= k < catalog.len() && #[trigger] passes(catalog[k], q) ==> v.contains(k as usize)
    &&& forall|i: int, j: int|
        0 <= i < j < v.len() ==> sort_le(
            catalog[v[i] as int],
            catalog[v[j] as int],
            q.sort_criteria,
            q.sort_order,
        )
    &&& forall|i: int, j: int|
        0 <= i < j < v.len() && sort_le(
            catalog[v[j] as int],
            catalog[v[i] as int],
            q.sort_criteria,
            q.sort_order,
        ) ==> v[i] < v[j]
}

/// The sort relation is total.
pub proof fn lemma_sort_le_total(a: Photo, b: Photo, criteria: SortCriteria, order: SortOrder)
    ensures
        sort_le(a, b, criteria, order) || sort_le(b, a, criteria, order),
{
    lemma_lex_le_total(a.name@, b.name@);
}

/// The sort relation is transitive.
pub proof fn lemma_sort_le_trans(
    a: Photo,
    b: Photo,
    c: Photo,
    criteria: SortCriteria,
    order: SortOrder,
)
    requires
        sort_le(a, b, criteria, order),
        sort_le(b, c, criteria, order),
    ensures
        sort_le(a, c, criteria, order),
{
    if criteria == SortCriteria::Name {
        if order == SortOrder::Ascending {
            lemma_lex_le_trans(a.name@, b.name@, c.name@);
        } else {
            lemma_lex_le_trans(c.name@, b.name@, a.name@);
        }
    }
}

/// Entries with the same sort key may stand in either order.
pub proof fn lemma_same_key_ties(a: Photo, b: Photo, criteria: SortCriteria, order: SortOrder)
    requires
        same_key(a, b, criteria),
    ensures
        sort_le(a, b, criteria, order),
        sort_le(b, a, criteria, order),
{
    lemma_lex_le_refl(a.name@);
}

proof fn lemma_views_agree_at(c: Seq<Photo>, q: QueryState, v1: Seq<usize>, v2: Seq<usize>, d: int)
    requires
        is_view(c, q, v1),
        is_view(c, q, v2),
        0 <= d < v1.len(),
        d < v2.len(),
        forall|e: int| 0 <= e < d ==> v1[e] == v2[e],
    ensures
        v1[d] == v2[d],
{
    let x = v1[d];
    let y = v2[d];
    if x != y {
        assert(passes(c[y as int], q));
        let e = choose|e: int| 0 <= e < v1.len() && v1[e] == y;
        assert(passes(c[x as int], q));
        let f = choose|f: int| 0 <= f < v2.len() && v2[f] == x;
        if e < d {
            assert(v2[e] == y);
        }
        if f < d {
            assert(v1[f] == x);
        }
        assert(d < e && d < f);
        assert(sort_le(c[x as int], c[y as int], q.sort_criteria, q.sort_order));
        assert(sort_le(c[y as int], c[x as int], q.sort_criteria, q.sort_order));
        assert(x < y);
        assert(y < x);
    }
}

proof fn lemma_views_agree_upto(c: Seq<Photo>, q: QueryState, v1: Seq<usize>, v2: Seq<usize>, d: int)
    requires
        is_view(c, q, v1),
        is_view(c, q, v2),
        0 <= d <= v1.len(),
        d <= v2.len(),
    ensures
        forall|e: int| 0 <= e < d ==> v1[e] == v2[e],
    decreases d,
{
    if d > 0 {
        lemma_views_agree_upto(c, q, v1, v2, d - 1);
        lemma_views_agree_at(c, q, v1, v2, d - 1);
    }
}

proof fn lemma_view_not_longer(c: Seq<Photo>, q: QueryState, v1: Seq<usize>, v2: Seq<usize>)
    requires
        is_view(c, q, v1),
        is_view(c, q, v2),
        v1.len() <= v2.len(),
        forall|e: int| 0 <= e < v1.len() ==> v1[e] == v2[e],
    ensures
        v1.len() == v2.len(),
{
    if v1.len() < v2.len() {
        let y = v2[v1.len() as int];
        assert(passes(c[y as int], q));
        let e = choose|e: int| 0 <= e < v1.len() && v1[e] == y;
        assert(v2[e] == y);
    }
}

/// Evaluation is deterministic: a catalog and a query admit exactly one view,
/// so evaluating the same query on the same catalog twice gives the same
/// entries in the same order.
pub proof fn lemma_view_unique(catalog: Seq<Photo>, q: QueryState, v1: Seq<usize>, v2: Seq<usize>)
    requires
        is_view(catalog, q, v1),
        is_view(catalog, q, v2),
    ensures
        v1 == v2,
{
    if v1.len() <= v2.len() {
        lemma_views_agree_upto(catalog, q, v1, v2, v1.len() as int);
        lemma_view_not_longer(catalog, q, v1, v2);
    } else {
        lemma_views_agree_upto(catalog, q, v2, v1, v2.len() as int);
        lemma_view_not_longer(catalog, q, v2, v1);
    }
    assert(v1 =~= v2);
}

/// Every entry of a view passes each of the three tests on its own: its name
/// contains the search term, its extension is switched on, and its pixel area
/// lies in the selected bucket.
pub proof fn lemma_view_entries_pass(catalog: Seq<Photo>, q: QueryState, v: Seq<usize>, i: int)
    requires
        is_view(catalog, q, v),
        0 <= i < v.len(),
    ensures
        search_matches(catalog[v[i] as int].name@, q.search_term@),
        extension_on(q.extension_enabled@, catalog[v[i] as int].extension@),
        filter_admits(q.size_filter, catalog[v[i] as int].area()),
{
    assert(passes(catalog[v[i] as int], q));
}

/// An entry whose extension has no switch in the query is never in the view.
pub proof fn lemma_unlisted_extension_hidden(
    catalog: Seq<Photo>,
    q: QueryState,
    v: Seq<usize>,
    k: usize,
)
    requires
        is_view(catalog, q, v),
        k < catalog.len(),
        forall|j: int|
            0 <= j < q.extension_enabled.len() ==> #[trigger] q.extension_enabled[j].extension@
                != catalog[k as int].extension@,
    ensures
        !v.contains(k),
{
    if v.contains(k) {
        let i = choose|i: int| 0 <= i < v.len() && v[i] == k;
        assert(passes(catalog[v[i] as int], q));
        let t = choose|t: int|
            0 <= t < q.extension_enabled@.len() && #[trigger] q.extension_enabled@[t].extension@
                == catalog[k as int].extension@ && q.extension_enabled@[t].enabled && forall|j: int|
                0 <= j < t ==> q.extension_enabled@[j].extension@ != catalog[k as int].extension@;
        assert(q.extension_enabled[t].extension@ != catalog[k as int].extension@);
    }
}

/// Sorting is stable: entries with the same sort key keep their catalog
/// order, in ascending and in descending views alike.
pub proof fn lemma_view_stable(catalog: Seq<Photo>, q: QueryState, v: Seq<usize>, i: int, j: int)
    requires
        is_view(catalog, q, v),
        0 <= i < j < v.len(),
        same_key(catalog[v[i] as int], catalog[v[j] as int], q.sort_criteria),
    ensures
        v[i] < v[j],
{
    lemma_same_key_ties(catalog[v[i] as int], catalog[v[j] as int], q.sort_criteria, q.sort_order);
}

/// `after` is `before` with every switch for `ext` flipped and nothing else
/// changed.
pub open spec fn toggled(
    before: Seq<ExtensionToggle>,
    after: Seq<ExtensionToggle>,
    ext: Seq<char>,
) -> bool {
    &&& after.len() == before.len()
    &&& forall|i: int|
        0 <= i < before.len() ==> #[trigger] after[i].extension@ == before[i].extension@
            && after[i].enabled == (if before[i].extension@ == ext {
            !before[i].enabled
        } else {
            before[i].enabled
        })
}

/// The query a session starts with: no search term, a switch for every
/// supported extension, in order and on, no size restriction, sorted by name
/// in ascending order.
pub open spec fn is_starting_query(q: QueryState) -> bool {
    &&& q.search_term@.len() == 0
    &&& q.extension_enabled.len() == supported_extension_seq().len()
    &&& forall|i: int|
        0 <= i < q.extension_enabled.len() ==> #[trigger] q.extension_enabled[i].extension@
            == supported_extension_seq()[i] && q.extension_enabled[i].enabled
    &&& q.size_filter == SizeFilter::All
    &&& q.sort_criteria == SortCriteria::Name
    &&& q.sort_order == SortOrder::Ascending
}

impl QueryState {
    /// No extension has more than one switch.
    pub open spec fn wf(&self) -> bool {
        forall|i: int, j: int|
            0 <= i < j < self.extension_enabled.len() ==> self.extension_enabled[i].extension@
                != self.extension_enabled[j].extension@
    }

    /// The starting query.
    pub fn new() -> (r: QueryState)
        ensures
            is_starting_query(r),
            r.wf(),
    {
        proof {
            lemma_supported_extensions_distinct();
        }
        let names = supported_extensions();
        let mut toggles: Vec<ExtensionToggle> = Vec::new();
        let mut i: usize = 0;
        while i < names.len()
            invariant
                i <= names.len(),
                names.len() == supported_extension_seq().len(),
                forall|j: int|
                    0 <= j < names.len() ==> #[trigger] names[j]@ == supported_extension_seq()[j],
                toggles.len() == i,
                forall|j: int|
                    0 <= j < i ==> #[trigger] toggles[j].extension@ == names[j]@
                        && toggles[j].enabled,
            decreases names.len() - i,
        {
            let extension = names[i].clone();
            toggles.push(ExtensionToggle { extension, enabled: true });
            i = i + 1;
        }
        QueryState {
            search_term: String::new(),
            extension_enabled: toggles,
            size_filter: SizeFilter::All,
            sort_criteria: SortCriteria::Name,
            sort_order: SortOrder::Ascending,
        }
    }

    /// Flips the switch of an extension; an extension without one is left
    /// alone.
    pub fn toggle_extension(&mut self, extension: &String)
        ensures
            toggled(old(self).extension_enabled@, final(self).extension_enabled@, extension@),
            old(self).wf() ==> final(self).wf(),
            final(self).search_term == old(self).search_term,
            final(self).size_filter == old(self).size_filter,
            final(self).sort_criteria == old(self).sort_criteria,
            final(self).sort_order == old(self).sort_order,
    {
        let mut toggles: Vec<ExtensionToggle> = Vec::new();
        let mut i: usize = 0;
        while i < self.extension_enabled.len()
            invariant
                i <= self.extension_enabled.len(),
                toggles.len() == i,
                forall|j: int|
                    0 <= j < i ==> #[trigger] toggles[j].extension@
                        == self.extension_enabled[j].extension@ && toggles[j].enabled == (
                    if self.extension_enabled[j].extension@ == extension@ {
                        !self.extension_enabled[j].enabled
                    } else {
                        self.extension_enabled[j].enabled
                    }),
            decreases self.extension_enabled.len() - i,
        {
            let t = &self.extension_enabled[i];
            let enabled = if t.extension == *extension {
                !t.enabled
            } else {
                t.enabled
            };
            let ext = t.extension.clone();
            toggles.push(ExtensionToggle { extension: ext, enabled });
            i = i + 1;
        }
        self.extension_enabled = toggles;
    }

    /// Turns the switches of an extension on or off; an extension without a
    /// switch is left alone.
    pub fn set_extension_enabled(&mut self, extension: &String, turn_on: bool)
        ensures
            final(self).extension_enabled.len() == old(self).extension_enabled.len(),
            forall|i: int|
                0 <= i < old(self).extension_enabled.len()
                    ==> #[trigger] final(self).extension_enabled[i].extension@
                    == old(self).extension_enabled[i].extension@
                    && final(self).extension_enabled[i].enabled == (
                if old(self).extension_enabled[i].extension@ == extension@ {
                    turn_on
                } else {
                    old(self).extension_enabled[i].enabled
                }),
            old(self).wf() ==> final(self).wf(),
            final(self).search_term == old(self).search_term,
            final(self).size_filter == old(self).size_filter,
            final(self).sort_criteria == old(self).sort_criteria,
            final(self).sort_order == old(self).sort_order,
    {
        let mut toggles: Vec<ExtensionToggle> = Vec::new();
        let mut i: usize = 0;
        while i < self.extension_enabled.len()
            invariant
                i <= self.extension_enabled.len(),
                toggles.len() == i,
                forall|j: int|
                    0 <= j < i ==> #[trigger] toggles[j].extension@
                        == self.extension_enabled[j].extension@ && toggles[j].enabled == (
                    if self.extension_enabled[j].extension@ == extension@ {
                        turn_on
                    } else {
                        self.extension_enabled[j].enabled
                    }),
            decreases self.extension_enabled.len() - i,
        {
            let t = &self.extension_enabled[i];
            let enabled = if t.extension == *extension {
                turn_on
            } else {
                t.enabled
            };
            let ext = t.extension.clone();
            let ghost before = toggles@;
            toggles.push(ExtensionToggle { extension: ext, enabled });
            assert forall|j: int| 0 <= j <= i implies #[trigger] toggles[j].extension@
                == self.extension_enabled[j].extension@ && toggles[j].enabled == (
                if self.extension_enabled[j].extension@ == extension@ {
                    turn_on
                } else {
                    self.extension_enabled[j].enabled
                }) by {
                if j < i {
                    assert(toggles[j] == before[j]);
                    assert(before[j].extension@ == self.extension_enabled[j].extension@);
                }
            }
            i = i + 1;
        }
        self.extension_enabled = toggles;
    }

    /// Whether entries with this extension are shown.
    pub fn is_extension_on(&self, extension: &String) -> (r: bool)
        ensures
            r == extension_on(self.extension_enabled@, extension@),
    {
        let mut i: usize = 0;
        while i < self.extension_enabled.len()
            invariant
                i <= self.extension_enabled.len(),
                forall|j: int| 0 <= j < i ==> self.extension_enabled[j].extension@ != extension@,
            decreases self.extension_enabled.len() - i,
        {
            if self.extension_enabled[i].extension == *extension {
                return self.extension_enabled[i].enabled;
            }
            i = i + 1;
        }
        false
    }
}

/// Whether an entry passes the query, given its name and the search term
/// already folded to lower case.
pub fn keep_entry(p: &Photo, lowered_name: &str, lowered_term: &str, q: &QueryState) -> (r: bool)
    ensures
        r == (is_infix(lowered_term@, lowered_name@) && extension_on(
            q.extension_enabled@,
            p.extension@,
        ) && filter_admits(q.size_filter, p.area())),
{
    str_contains(lowered_name, lowered_term) && q.is_extension_on(&p.extension)
        && q.size_filter.admits(p.pixel_area())
}

/// Whether the entry at `a` may come before the one at `b`; `names` holds the
/// characters of every name of the catalog.
fn entry_le(
    catalog: &Vec<Photo>,
    names: &Vec<Vec<char>>,
    a: usize,
    b: usize,
    criteria: SortCriteria,
    order: SortOrder,
) -> (r: bool)
    requires
        a < catalog.len(),
        b < catalog.len(),
        names.len() == catalog.len(),
        forall|k: int| 0 <= k < catalog.len() ==> #[trigger] names[k]@ == catalog[k].name@,
    ensures
        r == sort_le(catalog[a as int], catalog[b as int], criteria, order),
{
    let pa = &catalog[a];
    let pb = &catalog[b];
    match criteria {
        SortCriteria::Name => match order {
            SortOrder::Ascending => chars_le(&names[a], &names[b]),
            SortOrder::Descending => chars_le(&names[b], &names[a]),
        },
        SortCriteria::Size => match order {
            SortOrder::Ascending => pa.size <= pb.size,
            SortOrder::Descending => pb.size <= pa.size,
        },
        SortCriteria::Date => match (pa.modified_at, pb.modified_at) {
            (Some(x), Some(y)) => match order {
                SortOrder::Ascending => x <= y,
                SortOrder::Descending => y <= x,
            },
            (Some(_), None) => true,
            (None, Some(_)) => false,
            (None, None) => true,
        },
    }
}

/// The view of `catalog` under `q`: the indices of the entries that pass the
/// search, the extension switches and the size filter, stably sorted.
pub fn evaluate(catalog: &Vec<Photo>, q: &QueryState) -> (r: Vec<usize>)
    ensures
        is_view(catalog@, *q, r@),
{
    let term = lowercase(q.search_term.as_str());
    let mut names: Vec<Vec<char>> = Vec::new();
    let mut k: usize = 0;
    while k < catalog.len()
        invariant
            k <= catalog.len(),
            names.len() == k,
            forall|m: int| 0 <= m < k ==> #[trigger] names[m]@ == catalog[m].name@,
        decreases catalog.len() - k,
    {
        names.push(char_vec(catalog[k].name.as_str()));
        k = k + 1;
    }
    let criteria = q.sort_criteria;
    let order = q.sort_order;
    let ghost c = catalog@;
    let mut out: Vec<usize> = Vec::new();
    k = 0;
    while k < catalog.len()
        invariant
            k <= catalog.len(),
            c == catalog@,
            criteria == q.sort_criteria,
            order == q.sort_order,
            term@ == lower_of(q.search_term@),
            q.search_term@.len() == 0 ==> term@.len() == 0,
            names.len() == catalog.len(),
            forall|m: int| 0 <= m < catalog.len() ==> #[trigger] names[m]@ == catalog[m].name@,
            forall|i: int, j: int| 0 <= i < j < out.len() ==> out[i] != out[j],
            forall|i: int| 0 <= i < out.len() ==> #[trigger] out[i] < k && passes(c[out[i] as int], *q),
            forall|m: int| 0 <= m < k && #[trigger] passes(c[m], *q) ==> out@.contains(m as usize),
            forall|i: int, j: int|
                0 <= i < j < out.len() ==> sort_le(c[out[i] as int], c[out[j] as int], criteria, order),
            forall|i: int, j: int|
                0 <= i < j < out.len() && sort_le(c[out[j] as int], c[out[i] as int], criteria, order)
                    ==> out[i] < out[j],
        decreases catalog.len() - k,
    {
        let name = lowercase(catalog[k].name.as_str());
        proof {
            if q.search_term@.len() == 0 {
                lemma_empty_is_infix(term@, name@);
            }
        }
        if keep_entry(&catalog[k], name.as_str(), term.as_str(), q) {
            let mut pos: usize = out.len();
            while pos > 0 && !entry_le(catalog, &names, out[pos - 1], k, criteria, order)
                invariant
                    pos <= out.len(),
                    k < catalog.len(),
                    c == catalog@,
                    names.len() == catalog.len(),
                    forall|m: int| 0 <= m < catalog.len() ==> #[trigger] names[m]@ == catalog[m].name@,
                    forall|i: int| 0 <= i < out.len() ==> #[trigger] out[i] < k,
                    forall|j: int|
                        pos <= j < out.len() ==> !sort_le(c[out[j] as int], c[k as int], criteria, order),
                decreases pos,
            {
                pos = pos - 1;
            }
            let ghost before = out@;
            proof {
                assert forall|i: int| 0 <= i < pos implies sort_le(c[before[i] as int], c[k as int], criteria, order) by {
                    if i < pos - 1 {
                        lemma_sort_le_trans(c[before[i] as int], c[before[pos - 1] as int], c[k as int], criteria, order);
                    }
                }
                assert forall|j: int| pos <= j < before.len() implies sort_le(c[k as int], c[before[j] as int], criteria, order) by {
                    lemma_sort_le_total(c[k as int], c[before[j] as int], criteria, order);
                }
            }
            out.insert(pos, k);
            proof {
                assert(out@ == before.insert(pos as int, k));
                assert forall|m: int| 0 <= m < k + 1 && #[trigger] passes(c[m], *q) implies out@.contains(m as usize) by {
                    if m < k {
                        let w = choose|w: int| 0 <= w < before.len() && before[w] == m as usize;
                        if w < pos {
                            assert(out[w] == m as usize);
                        } else {
                            assert(out[w + 1] == m as usize);
                        }
                    } else {
                        assert(out[pos as int] == k);
                    }
                }
            }
        }
        k = k + 1;
    }
    out
}

} // verus!
