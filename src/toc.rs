//! The table-of-contents builder: registers every section id of the tree,
//! failing on the first one seen twice, and collects the visible entries
//! (sections of depth two and three).
use vstd::prelude::*;

use crate::article::{
    Article, ArticleError, Item, Level2, Level3, Level4, Level5, Level6, Text, TextOrNested, TocEntry,
};

verus! {

/// Model of a table-of-contents entry.
pub struct TocView {
    pub id: Seq<char>,
    pub title: Seq<char>,
    pub level: u8,
    pub children: Seq<TocView>,
}

/// The model of an entry.
pub open spec fn toc_view(e: TocEntry) -> TocView
    decreases e,
{
    TocView { id: e.id@, title: e.title@, level: e.level, children: toc_views(e.children@) }
}

/// The models of a sequence of entries.
pub open spec fn toc_views(es: Seq<TocEntry>) -> Seq<TocView>
    decreases es,
{
    if es.len() == 0 {
        Seq::empty()
    } else {
        toc_views(es.drop_last()).push(toc_view(es.last()))
    }
}

/// The ids held in a list of seen ids.
pub open spec fn ids(v: Seq<String>) -> Seq<Seq<char>> {
    v.map_values(|s: String| s@)
}

/// The first key of `keys` that is in `seen` or comes earlier in `keys`.
pub open spec fn first_dup(seen: Seq<Seq<char>>, keys: Seq<Seq<char>>) -> Option<Seq<char>>
    decreases keys.len(),
{
    if keys.len() == 0 {
        None
    } else if seen.contains(keys[0]) {
        Some(keys[0])
    } else {
        first_dup(seen.push(keys[0]), keys.drop_first())
    }
}

/// Finding the first repeated key of two key sequences one after the other.
pub proof fn lemma_first_dup_concat(seen: Seq<Seq<char>>, a: Seq<Seq<char>>, b: Seq<Seq<char>>)
    ensures
        first_dup(seen, a + b) == match first_dup(seen, a) {
            Some(k) => Some(k),
            None => first_dup(seen + a, b),
        },
    decreases a.len(),
{
    if a.len() == 0 {
        assert(a + b =~= b);
        assert(seen + a =~= seen);
    } else {
        assert((a + b)[0] == a[0]);
        assert((a + b).drop_first() =~= a.drop_first() + b);
        lemma_first_dup_concat(seen.push(a[0]), a.drop_first(), b);
        assert(seen.push(a[0]) + a.drop_first() =~= seen + a);
    }
}

/// The entry models of an optional entry, as a sequence.
pub open spec fn opt_seq(o: Option<TocView>) -> Seq<TocView> {
    match o {
        Some(v) => seq![v],
        None => Seq::empty(),
    }
}

/// What a collection step promises: with no repeated key, the keys are
/// added to the seen ids and the result is `Ok` with `entries`; else the
/// first repeated key is the error.
pub open spec fn collected<R>(
    seen0: Seq<Seq<char>>,
    keys: Seq<Seq<char>>,
    seen1: Seq<Seq<char>>,
    r: Result<R, ArticleError>,
    ok: spec_fn(R) -> bool,
) -> bool {
    match first_dup(seen0, keys) {
        None => seen1 == seen0 + keys && (r matches Ok(v) && ok(v)),
        Some(k) => seen1 == reach(seen0, keys) && (r matches Err(
            ArticleError::DuplicateSectionId(s),
        ) && s@ == k),
    }
}

/// The seen ids after registering `keys` one by one from `seen`, stopping
/// at the first key already seen (which is not added again).
pub open spec fn reach(seen: Seq<Seq<char>>, keys: Seq<Seq<char>>) -> Seq<Seq<char>>
    decreases keys.len(),
{
    if keys.len() == 0 {
        seen
    } else if seen.contains(keys[0]) {
        seen
    } else {
        reach(seen.push(keys[0]), keys.drop_first())
    }
}

/// Registering two key sequences one after the other.
pub proof fn lemma_reach_concat(seen: Seq<Seq<char>>, a: Seq<Seq<char>>, b: Seq<Seq<char>>)
    ensures
        reach(seen, a + b) == if first_dup(seen, a) is None {
            reach(seen + a, b)
        } else {
            reach(seen, a)
        },
    decreases a.len(),
{
    if a.len() == 0 {
        assert(a + b =~= b);
        assert(seen + a =~= seen);
    } else {
        assert((a + b)[0] == a[0]);
        assert((a + b).drop_first() =~= a.drop_first() + b);
        lemma_reach_concat(seen.push(a[0]), a.drop_first(), b);
        assert(seen.push(a[0]) + a.drop_first() =~= seen + a);
    }
}

/// Registering ids and collecting table-of-contents entries.
pub trait CollectToc {
    /// The ids registered for this value under the key `id`, in order.
    spec fn toc_keys(&self, id: Seq<char>) -> Seq<Seq<char>>;

    /// The visible entry of this value under the key `id`, if any.
    spec fn toc_entry(&self, id: Seq<char>) -> Option<TocView>;

    /// The number of sections of depth two and three in this value.
    spec fn visible_count(&self) -> nat;

    /// The entries of this value, counted with all their descendants, are
    /// as many as its sections of depth two and three.
    proof fn lemma_entry_count(&self, id: Seq<char>)
        ensures
            toc_size(opt_seq(self.toc_entry(id))) == self.visible_count(),
    ;

    /// Registers the ids of this value in `seen_ids` and returns its
    /// visible entry.
    fn collect_toc_entry(&self, id: &str, seen_ids: &mut Vec<String>) -> (r: Result<
        Option<TocEntry>,
        ArticleError,
    >)
        ensures
            collected(
                ids(old(seen_ids)@),
                self.toc_keys(id@),
                ids(final(seen_ids)@),
                r,
                |o: Option<TocEntry>|
                    match o {
                        Some(e) => self.toc_entry(id@) == Some(toc_view(e)),
                        None => self.toc_entry(id@) is None,
                    },
            ),
    ;
}

/// Ids registered by a list of values under one key.
pub open spec fn list_keys<T: CollectToc>(v: Seq<T>, id: Seq<char>) -> Seq<Seq<char>>
    decreases v.len(),
{
    if v.len() == 0 {
        Seq::empty()
    } else {
        list_keys(v.drop_last(), id) + v.last().toc_keys(id)
    }
}

/// Entries of a list of values under one key.
pub open spec fn list_entries<T: CollectToc>(v: Seq<T>, id: Seq<char>) -> Seq<TocView>
    decreases v.len(),
{
    if v.len() == 0 {
        Seq::empty()
    } else {
        list_entries(v.drop_last(), id) + opt_seq(v.last().toc_entry(id))
    }
}

/// Ids registered by an item under the key `id`.
pub open spec fn item_keys<T: CollectToc>(item: Item<T>, id: Seq<char>) -> Seq<Seq<char>> {
    match item {
        Item::Normal(x) => x.toc_keys(id),
        Item::List(v) => list_keys(v@, id),
        Item::Toc(_) => Seq::empty(),
    }
}

/// Entries of an item under the key `id`.
pub open spec fn item_entries<T: CollectToc>(item: Item<T>, id: Seq<char>) -> Seq<TocView> {
    match item {
        Item::Normal(x) => opt_seq(x.toc_entry(id)),
        Item::List(v) => list_entries(v@, id),
        Item::Toc(_) => Seq::empty(),
    }
}

/// Ids registered by an ordered mapping of keys to items, depth first.
pub open spec fn sections_keys<T: CollectToc>(es: Seq<(String, Item<T>)>) -> Seq<Seq<char>>
    decreases es.len(),
{
    if es.len() == 0 {
        Seq::empty()
    } else {
        sections_keys(es.drop_last()) + item_keys(es.last().1, es.last().0@)
    }
}

/// Visible entries of an ordered mapping of keys to items.
pub open spec fn sections_entries<T: CollectToc>(es: Seq<(String, Item<T>)>) -> Seq<TocView>
    decreases es.len(),
{
    if es.len() == 0 {
        Seq::empty()
    } else {
        sections_entries(es.drop_last()) + item_entries(es.last().1, es.last().0@)
    }
}

/// Adds `id` to `seen_ids` unless it is there already; tells whether it
/// was added.
fn insert_id(seen_ids: &mut Vec<String>, id: &str) -> (r: bool)
    ensures
        r == !ids(old(seen_ids)@).contains(id@),
        r ==> ids(final(seen_ids)@) == ids(old(seen_ids)@).push(id@),
        !r ==> final(seen_ids)@ == old(seen_ids)@,
{
    let s = id.to_owned();
    let mut i: usize = 0;
    while i < seen_ids.len()
        invariant
            i <= seen_ids@.len(),
            s@ == id@,
            forall|j: int| 0 <= j < i ==> seen_ids@[j]@ != id@,
        decreases seen_ids@.len() - i,
    {
        if seen_ids[i] == s {
            assert(ids(seen_ids@)[i as int] == id@);
            return false;
        }
        i += 1;
    }
    assert(!ids(seen_ids@).contains(id@)) by {
        if ids(seen_ids@).contains(id@) {
            let j = choose|j: int| 0 <= j < ids(seen_ids@).len() && ids(seen_ids@)[j] == id@;
            assert(seen_ids@[j]@ == id@);
        }
    }
    let ghost before = seen_ids@;
    seen_ids.push(s);
    assert(ids(seen_ids@) =~= ids(before).push(id@));
    true
}

/// The error for a repeated id.
fn duplicate(id: &str) -> (r: ArticleError)
    ensures
        r matches ArticleError::DuplicateSectionId(s) && s@ == id@,
{
    ArticleError::DuplicateSectionId(id.to_owned())
}

proof fn lemma_list_keys_concat<T: CollectToc>(a: Seq<T>, b: Seq<T>, id: Seq<char>)
    ensures
        list_keys(a + b, id) == list_keys(a, id) + list_keys(b, id),
    decreases b.len(),
{
    if b.len() == 0 {
        assert(a + b =~= a);
        assert(list_keys(a, id) + list_keys(b, id) =~= list_keys(a, id));
    } else {
        assert((a + b).drop_last() =~= a + b.drop_last());
        lemma_list_keys_concat(a, b.drop_last(), id);
        assert(list_keys(a + b, id) =~= list_keys(a, id) + list_keys(b, id));
    }
}

proof fn lemma_sections_keys_concat<T: CollectToc>(a: Seq<(String, Item<T>)>, b: Seq<(String, Item<T>)>)
    ensures
        sections_keys(a + b) == sections_keys(a) + sections_keys(b),
    decreases b.len(),
{
    if b.len() == 0 {
        assert(a + b =~= a);
        assert(sections_keys(a) + sections_keys(b) =~= sections_keys(a));
    } else {
        assert((a + b).drop_last() =~= a + b.drop_last());
        lemma_sections_keys_concat(a, b.drop_last());
        assert(sections_keys(a + b) =~= sections_keys(a) + sections_keys(b));
    }
}

/// Collects the visible entries of a list of values under one key.
fn collect_list<T: CollectToc>(v: &Vec<T>, id: &str, seen_ids: &mut Vec<String>) -> (r: Result<
    Vec<TocEntry>,
    ArticleError,
>)
    ensures
        collected(
            ids(old(seen_ids)@),
            list_keys(v@, id@),
            ids(final(seen_ids)@),
            r,
            |es: Vec<TocEntry>| toc_views(es@) == list_entries(v@, id@),
        ),
{
    let mut entries: Vec<TocEntry> = Vec::new();
    let mut i: usize = 0;
    let ghost seen0 = ids(seen_ids@);
    while i < v.len()
        invariant
            i <= v@.len(),
            seen0 == ids(old(seen_ids)@),
            first_dup(seen0, list_keys(v@.subrange(0, i as int), id@)) is None,
            ids(seen_ids@) == seen0 + list_keys(v@.subrange(0, i as int), id@),
            toc_views(entries@) == list_entries(v@.subrange(0, i as int), id@),
        decreases v@.len() - i,
    {
        let ghost pre = v@.subrange(0, i as int);
        let ghost step = v@[i as int].toc_keys(id@);
        proof {
            assert(v@.subrange(0, i + 1).drop_last() =~= pre);
            lemma_first_dup_concat(seen0, list_keys(pre, id@), step);
        }
        match v[i].collect_toc_entry(id, seen_ids) {
            Ok(o) => {
                match o {
                    Some(e) => {
                        let ghost before = entries@;
                        entries.push(e);
                        proof {
                            assert(entries@.drop_last() =~= before);
                        }
                    },
                    None => {},
                }
                proof {
                    assert(seen0 + list_keys(pre, id@) + step =~= seen0 + (list_keys(pre, id@)
                        + step));
                }
            },
            Err(e) => {
                proof {
                    let head = v@.subrange(0, i + 1);
                    let rest = v@.subrange(i + 1, v@.len() as int);
                    assert(v@ =~= head + rest);
                    lemma_list_keys_concat(head, rest, id@);
                    lemma_first_dup_concat(seen0, list_keys(head, id@), list_keys(rest, id@));
                    lemma_reach_concat(seen0, list_keys(head, id@), list_keys(rest, id@));
                    lemma_reach_concat(seen0, list_keys(pre, id@), step);
                }
                return Err(e);
            },
        }
        i += 1;
    }
    proof {
        assert(v@.subrange(0, v@.len() as int) =~= v@);
    }
    Ok(entries)
}

proof fn lemma_sections_split<T: CollectToc>(es: Seq<(String, Item<T>)>, i: int, seen0: Seq<Seq<char>>)
    requires
        0 <= i < es.len(),
        first_dup(seen0, sections_keys(es.subrange(0, i))) is None,
        first_dup(seen0 + sections_keys(es.subrange(0, i)), item_keys(es[i].1, es[i].0@)) is Some,
    ensures
        first_dup(seen0, sections_keys(es)) == first_dup(
            seen0 + sections_keys(es.subrange(0, i)),
            item_keys(es[i].1, es[i].0@),
        ),
        reach(seen0, sections_keys(es)) == reach(
            seen0 + sections_keys(es.subrange(0, i)),
            item_keys(es[i].1, es[i].0@),
        ),
{
    let pre = es.subrange(0, i);
    let head = es.subrange(0, i + 1);
    let rest = es.subrange(i + 1, es.len() as int);
    let step = item_keys(es[i].1, es[i].0@);
    assert(head.drop_last() =~= pre);
    assert(es =~= head + rest);
    lemma_sections_keys_concat(head, rest);
    lemma_first_dup_concat(seen0, sections_keys(head), sections_keys(rest));
    lemma_first_dup_concat(seen0, sections_keys(pre), step);
    lemma_reach_concat(seen0, sections_keys(head), sections_keys(rest));
    lemma_reach_concat(seen0, sections_keys(pre), step);
}

/// Collects the visible entries of an ordered mapping of keys to items,
/// registering every id on the way.
pub fn collect_toc_entries<T: CollectToc>(
    sections: &Vec<(String, Item<T>)>,
    seen_ids: &mut Vec<String>,
) -> (r: Result<Vec<TocEntry>, ArticleError>)
    ensures
        collected(
            ids(old(seen_ids)@),
            sections_keys(sections@),
            ids(final(seen_ids)@),
            r,
            |es: Vec<TocEntry>| toc_views(es@) == sections_entries(sections@),
        ),
{
    let mut entries: Vec<TocEntry> = Vec::new();
    let mut i: usize = 0;
    let ghost seen0 = ids(seen_ids@);
    while i < sections.len()
        invariant
            i <= sections@.len(),
            seen0 == ids(old(seen_ids)@),
            first_dup(seen0, sections_keys(sections@.subrange(0, i as int))) is None,
            ids(seen_ids@) == seen0 + sections_keys(sections@.subrange(0, i as int)),
            toc_views(entries@) == sections_entries(sections@.subrange(0, i as int)),
        decreases sections@.len() - i,
    {
        let ghost pre = sections@.subrange(0, i as int);
        let (id, item) = &sections[i];
        let ghost step = item_keys(*item, id@);
        proof {
            assert(sections@.subrange(0, i + 1).drop_last() =~= pre);
            lemma_first_dup_concat(seen0, sections_keys(pre), step);
            lemma_toc_views_concat(entries@, Seq::empty());
        }
        let got: Vec<TocEntry> = match item {
            Item::Normal(value) => match value.collect_toc_entry(id.as_str(), seen_ids) {
                Ok(Some(e)) => {
                    let mut one: Vec<TocEntry> = Vec::new();
                    one.push(e);
                    proof {
                        assert(one@.drop_last() =~= Seq::<TocEntry>::empty());
                    }
                    one
                },
                Ok(None) => Vec::new(),
                Err(e) => {
                    proof {
                        lemma_sections_split(sections@, i as int, seen0);
                    }
                    return Err(e);
                },
            },
            Item::List(values) => match collect_list(values, id.as_str(), seen_ids) {
                Ok(es) => es,
                Err(e) => {
                    proof {
                        lemma_sections_split(sections@, i as int, seen0);
                    }
                    return Err(e);
                },
            },
            Item::Toc(_) => Vec::new(),
        };
        let ghost before = entries@;
        let mut got = got;
        proof {
            lemma_toc_views_concat(before, got@);
        }
        entries.append(&mut got);
        proof {
            assert(seen0 + sections_keys(pre) + step =~= seen0 + (sections_keys(pre) + step));
        }
        i += 1;
    }
    proof {
        assert(sections@.subrange(0, sections@.len() as int) =~= sections@);
    }
    Ok(entries)
}

/// Models of entries put together are the models put together.
pub proof fn lemma_toc_views_concat(a: Seq<TocEntry>, b: Seq<TocEntry>)
    ensures
        toc_views(a + b) == toc_views(a) + toc_views(b),
    decreases b.len(),
{
    if b.len() == 0 {
        assert(a + b =~= a);
        assert(toc_views(a) + toc_views(b) =~= toc_views(a));
    } else {
        assert((a + b).drop_last() =~= a + b.drop_last());
        lemma_toc_views_concat(a, b.drop_last());
        assert(toc_views(a + b) =~= toc_views(a) + toc_views(b));
    }
}

/// First repeated key of a sequence that starts with `k`.
pub proof fn lemma_first_dup_cons(seen: Seq<Seq<char>>, k: Seq<char>, rest: Seq<Seq<char>>)
    ensures
        first_dup(seen, seq![k] + rest) == if seen.contains(k) {
            Some(k)
        } else {
            first_dup(seen.push(k), rest)
        },
        reach(seen, seq![k] + rest) == if seen.contains(k) {
            seen
        } else {
            reach(seen.push(k), rest)
        },
{
    assert((seq![k] + rest)[0] == k);
    assert((seq![k] + rest).drop_first() =~= rest);
}

/// Plain text of a header: its content.
pub fn extract_plain_text(text: &Text) -> (r: String)
    ensures
        r@ == text.content@,
{
    text.content.clone()
}

impl CollectToc for Text {
    open spec fn toc_keys(&self, id: Seq<char>) -> Seq<Seq<char>> {
        Seq::empty()
    }

    open spec fn toc_entry(&self, id: Seq<char>) -> Option<TocView> {
        None
    }

    open spec fn visible_count(&self) -> nat {
        0
    }

    proof fn lemma_entry_count(&self, id: Seq<char>) {
        assert(opt_seq(None) =~= Seq::<TocView>::empty());
    }

    fn collect_toc_entry(&self, id: &str, seen_ids: &mut Vec<String>) -> (r: Result<
        Option<TocEntry>,
        ArticleError,
    >) {
        assert(ids(seen_ids@) + Seq::<Seq<char>>::empty() =~= ids(seen_ids@));
        Ok(None)
    }
}

impl<T: CollectToc> CollectToc for TextOrNested<T> {
    open spec fn toc_keys(&self, id: Seq<char>) -> Seq<Seq<char>> {
        match self {
            TextOrNested::Text { .. } => Seq::empty(),
            TextOrNested::Nested(n) => n.toc_keys(id),
        }
    }

    open spec fn toc_entry(&self, id: Seq<char>) -> Option<TocView> {
        match self {
            TextOrNested::Text { .. } => None,
            TextOrNested::Nested(n) => n.toc_entry(id),
        }
    }

    open spec fn visible_count(&self) -> nat {
        match self {
            TextOrNested::Text { .. } => 0,
            TextOrNested::Nested(n) => n.visible_count(),
        }
    }

    proof fn lemma_entry_count(&self, id: Seq<char>) {
        match self {
            TextOrNested::Text { .. } => {
                assert(opt_seq(None) =~= Seq::<TocView>::empty());
            },
            TextOrNested::Nested(n) => {
                n.lemma_entry_count(id);
            },
        }
    }

    fn collect_toc_entry(&self, id: &str, seen_ids: &mut Vec<String>) -> (r: Result<
        Option<TocEntry>,
        ArticleError,
    >) {
        match self {
            TextOrNested::Text { .. } => {
                assert(ids(seen_ids@) + Seq::<Seq<char>>::empty() =~= ids(seen_ids@));
                Ok(None)
            },
            TextOrNested::Nested(nested) => nested.collect_toc_entry(id, seen_ids),
        }
    }
}

/// Registers `id` and the ids under `sections`; the entries under them.
fn register_section<T: CollectToc>(
    id: &str,
    sections: &Vec<(String, Item<T>)>,
    seen_ids: &mut Vec<String>,
) -> (r: Result<Vec<TocEntry>, ArticleError>)
    ensures
        collected(
            ids(old(seen_ids)@),
            seq![id@] + sections_keys(sections@),
            ids(final(seen_ids)@),
            r,
            |es: Vec<TocEntry>| toc_views(es@) == sections_entries(sections@),
        ),
{
    let ghost seen0 = ids(seen_ids@);
    proof {
        lemma_first_dup_cons(seen0, id@, sections_keys(sections@));
    }
    if !insert_id(seen_ids, id) {
        return Err(duplicate(id));
    }
    let r = collect_toc_entries(sections, seen_ids);
    proof {
        assert(seen0.push(id@) + sections_keys(sections@) =~= seen0 + (seq![id@] + sections_keys(
            sections@,
        )));
    }
    r
}

/// A visible entry.
fn visible_entry(id: &str, header: &Text, level: u8, children: Vec<TocEntry>) -> (r: TocEntry)
    ensures
        toc_view(r) == (TocView {
            id: id@,
            title: header.content@,
            level,
            children: toc_views(children@),
        }),
{
    TocEntry { id: id.to_owned(), title: extract_plain_text(header), level, children }
}

impl CollectToc for Level2 {
    open spec fn toc_keys(&self, id: Seq<char>) -> Seq<Seq<char>> {
        seq![id] + sections_keys(self.sections@)
    }

    open spec fn toc_entry(&self, id: Seq<char>) -> Option<TocView> {
        Some(
            TocView {
                id,
                title: self.header.content@,
                level: 2,
                children: sections_entries(self.sections@),
            },
        )
    }

    open spec fn visible_count(&self) -> nat {
        1 + sections_count(self.sections@)
    }

    proof fn lemma_entry_count(&self, id: Seq<char>) {
        lemma_sections_count(self.sections@);
        assert(opt_seq(self.toc_entry(id)).drop_last() =~= Seq::<TocView>::empty());
        assert(toc_size(Seq::<TocView>::empty()) == 0);
    }

    fn collect_toc_entry(&self, id: &str, seen_ids: &mut Vec<String>) -> (r: Result<
        Option<TocEntry>,
        ArticleError,
    >) {
        match register_section(id, &self.sections, seen_ids) {
            Ok(children) => Ok(Some(visible_entry(id, &self.header, 2, children))),
            Err(e) => Err(e),
        }
    }
}

impl CollectToc for Level3 {
    open spec fn toc_keys(&self, id: Seq<char>) -> Seq<Seq<char>> {
        seq![id] + sections_keys(self.sections@)
    }

    open spec fn toc_entry(&self, id: Seq<char>) -> Option<TocView> {
        Some(
            TocView {
                id,
                title: self.header.content@,
                level: 3,
                children: sections_entries(self.sections@),
            },
        )
    }

    open spec fn visible_count(&self) -> nat {
        1 + sections_count(self.sections@)
    }

    proof fn lemma_entry_count(&self, id: Seq<char>) {
        lemma_sections_count(self.sections@);
        assert(opt_seq(self.toc_entry(id)).drop_last() =~= Seq::<TocView>::empty());
        assert(toc_size(Seq::<TocView>::empty()) == 0);
    }

    fn collect_toc_entry(&self, id: &str, seen_ids: &mut Vec<String>) -> (r: Result<
        Option<TocEntry>,
        ArticleError,
    >) {
        match register_section(id, &self.sections, seen_ids) {
            Ok(children) => Ok(Some(visible_entry(id, &self.header, 3, children))),
            Err(e) => Err(e),
        }
    }
}

impl CollectToc for Level4 {
    open spec fn toc_keys(&self, id: Seq<char>) -> Seq<Seq<char>> {
        seq![id] + sections_keys(self.sections@)
    }

    open spec fn toc_entry(&self, id: Seq<char>) -> Option<TocView> {
        None
    }

    open spec fn visible_count(&self) -> nat {
        0
    }

    proof fn lemma_entry_count(&self, id: Seq<char>) {
        assert(opt_seq(None) =~= Seq::<TocView>::empty());
    }

    fn collect_toc_entry(&self, id: &str, seen_ids: &mut Vec<String>) -> (r: Result<
        Option<TocEntry>,
        ArticleError,
    >) {
        match register_section(id, &self.sections, seen_ids) {
            Ok(_) => Ok(None),
            Err(e) => Err(e),
        }
    }
}

impl CollectToc for Level5 {
    open spec fn toc_keys(&self, id: Seq<char>) -> Seq<Seq<char>> {
        seq![id] + sections_keys(self.sections@)
    }

    open spec fn toc_entry(&self, id: Seq<char>) -> Option<TocView> {
        None
    }

    open spec fn visible_count(&self) -> nat {
        0
    }

    proof fn lemma_entry_count(&self, id: Seq<char>) {
        assert(opt_seq(None) =~= Seq::<TocView>::empty());
    }

    fn collect_toc_entry(&self, id: &str, seen_ids: &mut Vec<String>) -> (r: Result<
        Option<TocEntry>,
        ArticleError,
    >) {
        match register_section(id, &self.sections, seen_ids) {
            Ok(_) => Ok(None),
            Err(e) => Err(e),
        }
    }
}

/// The keys of the leaves of a section of depth six, in order.
pub open spec fn leaf_keys(es: Seq<(String, Item<Text>)>) -> Seq<Seq<char>> {
    es.map_values(|e: (String, Item<Text>)| e.0@)
}

impl CollectToc for Level6 {
    open spec fn toc_keys(&self, id: Seq<char>) -> Seq<Seq<char>> {
        seq![id] + leaf_keys(self.sections@)
    }

    open spec fn toc_entry(&self, id: Seq<char>) -> Option<TocView> {
        None
    }

    open spec fn visible_count(&self) -> nat {
        0
    }

    proof fn lemma_entry_count(&self, id: Seq<char>) {
        assert(opt_seq(None) =~= Seq::<TocView>::empty());
    }

    fn collect_toc_entry(&self, id: &str, seen_ids: &mut Vec<String>) -> (r: Result<
        Option<TocEntry>,
        ArticleError,
    >) {
        let ghost seen0 = ids(seen_ids@);
        let ghost keys = leaf_keys(self.sections@);
        proof {
            lemma_first_dup_cons(seen0, id@, keys);
        }
        if !insert_id(seen_ids, id) {
            return Err(duplicate(id));
        }
        let mut i: usize = 0;
        proof {
            assert(keys.subrange(0, keys.len() as int) =~= keys);
            assert(keys.subrange(0, 0) =~= Seq::<Seq<char>>::empty());
            assert(seen0.push(id@) + Seq::<Seq<char>>::empty() =~= seen0.push(id@));
        }
        while i < self.sections.len()
            invariant
                i <= self.sections@.len(),
                keys == leaf_keys(self.sections@),
                seen0 == ids(old(seen_ids)@),
                first_dup(seen0, seq![id@] + keys) == first_dup(
                    ids(seen_ids@),
                    keys.subrange(i as int, keys.len() as int),
                ),
                reach(seen0, seq![id@] + keys) == reach(
                    ids(seen_ids@),
                    keys.subrange(i as int, keys.len() as int),
                ),
                ids(seen_ids@) == seen0.push(id@) + keys.subrange(0, i as int),
                !seen0.contains(id@),
            decreases self.sections@.len() - i,
        {
            let (child_id, _) = &self.sections[i];
            proof {
                let tail = keys.subrange(i as int, keys.len() as int);
                assert(tail[0] == child_id@);
                assert(tail.drop_first() =~= keys.subrange(i + 1, keys.len() as int));
            }
            let ghost seen_before = ids(seen_ids@);
            if !insert_id(seen_ids, child_id.as_str()) {
                proof {
                    let tail = keys.subrange(i as int, keys.len() as int);
                    assert(tail =~= seq![child_id@] + tail.drop_first());
                    lemma_first_dup_cons(seen_before, child_id@, tail.drop_first());
                }
                return Err(duplicate(child_id.as_str()));
            }
            proof {
                assert(keys.subrange(0, i + 1) =~= keys.subrange(0, i as int).push(child_id@));
            }
            i += 1;
        }
        proof {
            assert(keys.subrange(0, keys.len() as int) =~= keys);
            assert(seen0.push(id@) + keys =~= seen0 + (seq![id@] + keys));
        }
        Ok(None)
    }
}

/// The number of entries in a sequence of entries, each counted with all
/// its descendants.
pub open spec fn toc_size(vs: Seq<TocView>) -> nat
    decreases vs,
{
    if vs.len() == 0 {
        0
    } else {
        toc_size(vs.drop_last()) + 1 + toc_size(vs.last().children)
    }
}

/// Counting entries of two sequences one after the other.
pub proof fn lemma_toc_size_concat(a: Seq<TocView>, b: Seq<TocView>)
    ensures
        toc_size(a + b) == toc_size(a) + toc_size(b),
    decreases b.len(),
{
    if b.len() == 0 {
        assert(a + b =~= a);
    } else {
        assert((a + b).drop_last() =~= a + b.drop_last());
        assert((a + b).last() == b.last());
        lemma_toc_size_concat(a, b.drop_last());
    }
}

/// The number of sections of depth two and three in a list of values.
pub open spec fn list_count<T: CollectToc>(v: Seq<T>) -> nat
    decreases v.len(),
{
    if v.len() == 0 {
        0
    } else {
        list_count(v.drop_last()) + v.last().visible_count()
    }
}

/// The number of sections of depth two and three in an item.
pub open spec fn item_count<T: CollectToc>(item: Item<T>) -> nat {
    match item {
        Item::Normal(x) => x.visible_count(),
        Item::List(v) => list_count(v@),
        Item::Toc(_) => 0,
    }
}

/// The number of sections of depth two and three in an ordered mapping of
/// keys to items, at every depth below it.
pub open spec fn sections_count<T: CollectToc>(es: Seq<(String, Item<T>)>) -> nat
    decreases es.len(),
{
    if es.len() == 0 {
        0
    } else {
        sections_count(es.drop_last()) + item_count(es.last().1)
    }
}

proof fn lemma_list_count<T: CollectToc>(v: Seq<T>, id: Seq<char>)
    ensures
        toc_size(list_entries(v, id)) == list_count(v),
    decreases v.len(),
{
    if v.len() > 0 {
        lemma_list_count(v.drop_last(), id);
        v.last().lemma_entry_count(id);
        lemma_toc_size_concat(list_entries(v.drop_last(), id), opt_seq(v.last().toc_entry(id)));
    }
}

proof fn lemma_sections_count<T: CollectToc>(es: Seq<(String, Item<T>)>)
    ensures
        toc_size(sections_entries(es)) == sections_count(es),
    decreases es.len(),
{
    if es.len() > 0 {
        lemma_sections_count(es.drop_last());
        let (id, item) = es.last();
        match item {
            Item::Normal(x) => {
                x.lemma_entry_count(id@);
            },
            Item::List(v) => {
                lemma_list_count(v@, id@);
            },
            Item::Toc(_) => {
                assert(toc_size(Seq::<TocView>::empty()) == 0);
            },
        }
        lemma_toc_size_concat(sections_entries(es.drop_last()), item_entries(item, id@));
    }
}

/// The number of sections of depth two and three in an article.
pub open spec fn article_visible_count(a: Article) -> nat {
    sections_count(a.sections@)
}

/// Ids an article registers, in the order of a depth-first walk.
pub open spec fn article_keys(a: Article) -> Seq<Seq<char>> {
    sections_keys(a.sections@)
}

/// The visible table of contents of an article.
pub open spec fn article_toc(a: Article) -> Seq<TocView> {
    sections_entries(a.sections@)
}

/// Builds the table of contents of an article: the entries of its
/// sections of depth two and three, or the first id seen twice anywhere.
pub fn build_toc(article: &Article) -> (r: Result<Vec<TocEntry>, ArticleError>)
    ensures
        match first_dup(Seq::empty(), article_keys(*article)) {
            None => r matches Ok(es) && toc_views(es@) == article_toc(*article),
            Some(k) => r matches Err(ArticleError::DuplicateSectionId(s)) && s@ == k,
        },
{
    let mut seen_ids: Vec<String> = Vec::new();
    proof {
        assert(ids(seen_ids@) =~= Seq::<Seq<char>>::empty());
    }
    collect_toc_entries(&article.sections, &mut seen_ids)
}

/// With no key seen before, the search for a repeated key finds none
/// exactly when the keys are pairwise distinct, and a key it finds occurs
/// twice.
pub proof fn lemma_first_dup_distinct(seen: Seq<Seq<char>>, keys: Seq<Seq<char>>)
    ensures
        first_dup(seen, keys) is None <==> (keys.no_duplicates() && forall|i: int|
            0 <= i < keys.len() ==> !seen.contains(#[trigger] keys[i])),
        first_dup(seen, keys) matches Some(k) ==> (seen.contains(k) || exists|i: int, j: int|
            0 <= i < j < keys.len() && keys[i] == k && keys[j] == k),
        first_dup(seen, keys) matches Some(k) ==> keys.contains(k),
    decreases keys.len(),
{
    if keys.len() > 0 {
        let k0 = keys[0];
        let rest = keys.drop_first();
        lemma_first_dup_distinct(seen.push(k0), rest);
        if seen.contains(k0) {
            assert(!(forall|i: int| 0 <= i < keys.len() ==> !seen.contains(#[trigger] keys[i])));
            assert(keys[0] == k0);
        } else {
            if first_dup(seen.push(k0), rest) is None {
                assert forall|i: int, j: int|
                    0 <= i < keys.len() && 0 <= j < keys.len() && i != j implies keys[i]
                    != keys[j] by {
                    if i == 0 {
                        assert(keys[j] == rest[j - 1]);
                        assert(seen.push(k0)[seen.len() as int] == k0);
                    } else if j == 0 {
                        assert(keys[i] == rest[i - 1]);
                        assert(seen.push(k0)[seen.len() as int] == k0);
                    } else {
                        assert(keys[i] == rest[i - 1] && keys[j] == rest[j - 1]);
                    }
                }
                assert forall|i: int| 0 <= i < keys.len() implies !seen.contains(
                    #[trigger] keys[i],
                ) by {
                    if i > 0 {
                        assert(keys[i] == rest[i - 1]);
                        if seen.contains(keys[i]) {
                            let m = choose|m: int| 0 <= m < seen.len() && seen[m] == keys[i];
                            assert(seen.push(k0)[m] == keys[i]);
                        }
                    }
                }
            } else {
                if keys.no_duplicates() && forall|i: int|
                    0 <= i < keys.len() ==> !seen.contains(#[trigger] keys[i]) {
                    assert forall|i: int| 0 <= i < rest.len() implies !seen.push(k0).contains(
                        #[trigger] rest[i],
                    ) by {
                        assert(rest[i] == keys[i + 1]);
                        assert(!seen.contains(keys[i + 1]));
                        if seen.push(k0).contains(rest[i]) {
                            let m = choose|m: int|
                                0 <= m < seen.push(k0).len() && seen.push(k0)[m] == rest[i];
                            if m < seen.len() {
                                assert(seen[m] == rest[i]);
                            } else {
                                assert(keys[0] == keys[i + 1]);
                            }
                        }
                    }
                    assert forall|i: int, j: int|
                        0 <= i < rest.len() && 0 <= j < rest.len() && i != j implies rest[i]
                        != rest[j] by {
                        assert(rest[i] == keys[i + 1] && rest[j] == keys[j + 1]);
                    }
                }
            }
            if first_dup(seen, keys) is Some {
                let k = first_dup(seen, keys)->0;
                let jj = choose|j: int| 0 <= j < rest.len() && rest[j] == k;
                assert(keys[jj + 1] == k);
                if seen.push(k0).contains(k) && !seen.contains(k) {
                    let m = choose|m: int|
                        0 <= m < seen.push(k0).len() && seen.push(k0)[m] == k;
                    assert(k == k0);
                    let j = choose|j: int| 0 <= j < rest.len() && rest[j] == k;
                    assert(keys[0] == k && keys[j + 1] == k);
                } else if !seen.contains(k) {
                    let (i, j) = choose|i: int, j: int|
                        0 <= i < j < rest.len() && rest[i] == k && rest[j] == k;
                    assert(keys[i + 1] == k && keys[j + 1] == k);
                }
            }
        }
    }
}

/// Building the table of contents of an article succeeds exactly when its
/// registered ids (section ids at every depth and leaf keys at depth six)
/// are pairwise distinct, and then holds one entry, counting nested ones,
/// for each section of depth two and three; when it fails, the id it names
/// occurs twice.
pub proof fn lemma_toc_uniqueness(a: Article)
    ensures
        first_dup(Seq::empty(), article_keys(a)) is None <==> article_keys(a).no_duplicates(),
        first_dup(Seq::empty(), article_keys(a)) matches Some(k) ==> exists|i: int, j: int|
            0 <= i < j < article_keys(a).len() && article_keys(a)[i] == k && article_keys(a)[j]
                == k,
        toc_size(article_toc(a)) == article_visible_count(a),
{
    lemma_first_dup_distinct(Seq::empty(), article_keys(a));
    lemma_sections_count(a.sections@);
}

} // verus!
