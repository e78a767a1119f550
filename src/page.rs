//! Rendering of sections, the table of contents and whole pages.
use vstd::prelude::*;
use vstd::string::*;
use vstd::utf8::*;

use crate::article::{
    Article, ArticleError, Item, Level2, Level3, Level4, Level5, Level6, Text, TextOrNested,
    TocEntry,
};
use crate::code_highlight::{
    answers_ok, lemma_agrees_prefix, lemma_cache_answers, lemma_extends_trans, str_eq, Answers,
    CodeHighlighter, HighlightCache,
};
use crate::highlight::{eure_block, eure_block_markup};
use crate::highlight::lemma_eure_block_valid;
use crate::markup::{
    escaped, lemma_str_valid, lemma_valid_parts, push_bytes, push_escaped, push_str, utf8_to_string,
};
use crate::text::{
    leaf_html, lemma_leaf_valid, lemma_text_valid, render_text_with_mark, text_html, text_markup,
};
use crate::toc::{article_keys, article_toc, build_toc, first_dup, toc_view, toc_views, TocView};

verus! {

/// Markup of a sequence of table-of-contents entries as list items.
pub open spec fn toc_items_html(es: Seq<TocView>) -> Seq<u8>
    decreases es,
{
    if es.len() == 0 {
        Seq::empty()
    } else {
        toc_items_html(es.drop_last()) + toc_item_html(es.last())
    }
}

/// Markup of one entry: a link to its section, then its children as a
/// nested list where it has any.
pub open spec fn toc_item_html(e: TocView) -> Seq<u8>
    decreases e,
{
    "<li><a href=\"#".spec_bytes() + escaped(encode_utf8(e.id), true) + "\">".spec_bytes()
        + escaped(encode_utf8(e.title), true) + "</a>".spec_bytes() + (if e.children.len() > 0 {
        "<ul>".spec_bytes() + toc_items_html(e.children) + "</ul>".spec_bytes()
    } else {
        Seq::empty()
    }) + "</li>".spec_bytes()
}

/// Markup of the table of contents: a collapsible navigation block.
pub open spec fn toc_block_html(es: Seq<TocView>) -> Seq<u8> {
    "<details class=\"article-toc\" open><summary>Table of Contents</summary><nav><ul>".spec_bytes()
        + toc_items_html(es) + "</ul></nav></details>".spec_bytes()
}

fn push_toc_items(out: &mut Vec<u8>, entries: &Vec<TocEntry>)
    ensures
        final(out)@ == old(out)@ + toc_items_html(toc_views(entries@)),
    decreases entries@,
{
    let mut i: usize = 0;
    while i < entries.len()
        invariant
            i <= entries@.len(),
            out@ == old(out)@ + toc_items_html(toc_views(entries@.subrange(0, i as int))),
        decreases entries@.len() - i,
    {
        proof {
            assert(decreases_to!(entries@ => entries@[i as int]));
        }
        push_toc_item(out, &entries[i]);
        proof {
            let next = entries@.subrange(0, i + 1);
            assert(next.drop_last() =~= entries@.subrange(0, i as int));
            assert(toc_views(next).drop_last() =~= toc_views(entries@.subrange(0, i as int)));
        }
        i += 1;
    }
    proof {
        assert(entries@.subrange(0, entries@.len() as int) =~= entries@);
    }
}

fn push_toc_item(out: &mut Vec<u8>, e: &TocEntry)
    ensures
        final(out)@ == old(out)@ + toc_item_html(toc_view(*e)),
    decreases *e,
{
    push_str(out, "<li><a href=\"#");
    push_escaped(out, e.id.as_str().as_bytes(), true);
    push_str(out, "\">");
    push_escaped(out, e.title.as_str().as_bytes(), true);
    push_str(out, "</a>");
    if e.children.len() > 0 {
        push_str(out, "<ul>");
        proof {
            assert(decreases_to!(*e => e.children@));
        }
        push_toc_items(out, &e.children);
        push_str(out, "</ul>");
    }
    push_str(out, "</li>");
    proof {
        lemma_toc_views_len(e.children@);
    }
}

proof fn lemma_toc_views_len(es: Seq<TocEntry>)
    ensures
        toc_views(es).len() == es.len(),
    decreases es.len(),
{
    if es.len() > 0 {
        lemma_toc_views_len(es.drop_last());
    }
}

/// Markup of the table of contents.
pub fn render_toc(entries: &Vec<TocEntry>) -> (r: Vec<u8>)
    ensures
        r@ == toc_block_html(toc_views(entries@)),
{
    let mut out: Vec<u8> = Vec::new();
    push_str(
        &mut out,
        "<details class=\"article-toc\" open><summary>Table of Contents</summary><nav><ul>",
    );
    push_toc_items(&mut out, entries);
    push_str(&mut out, "</ul></nav></details>");
    out
}

/// Rendering a value of the tree under its key.
pub trait RenderNestedWithId {
    /// Markup of this value under the key `id`, with the table of contents
    /// `toc`; `None` where a leaf's marks are refused.
    spec fn html(&self, id: Seq<char>, toc: Seq<TocView>, g: Answers) -> Option<Seq<u8>>;

    /// The markup of this value is valid UTF-8.
    proof fn lemma_html_valid(&self, id: Seq<char>, toc: Seq<TocView>, g: Answers)
        requires
            answers_ok(g),
        ensures
            self.html(id, toc, g) matches Some(h) ==> valid_utf8(h),
    ;

    /// Renders this value under the key `id`, asking giallo through `cache`.
    fn render_with_id(
        &self,
        id: &str,
        highlighter: &CodeHighlighter,
        toc_entries: &Vec<TocEntry>,
        cache: &mut HighlightCache,
    ) -> (r: Result<Vec<u8>, ArticleError>)
        requires
            old(cache).wf(),
        ensures
            final(cache).wf(),
            final(cache).extends(*old(cache)),
            forall|g: Answers|
                #[trigger] final(cache).agrees(g) ==> match self.html(
                    id@,
                    toc_views(toc_entries@),
                    g,
                ) {
                    Some(h) => r matches Ok(v) && v@ == h,
                    None => r == Err::<Vec<u8>, ArticleError>(ArticleError::RawHtmlNotHtml),
                },
    ;
}

/// Markup of a list of values under one key, each in a list-item container.
pub open spec fn list_html<T: RenderNestedWithId>(
    v: Seq<T>,
    key: Seq<char>,
    toc: Seq<TocView>,
    g: Answers,
) -> Option<Seq<u8>>
    decreases v.len(),
{
    if v.len() == 0 {
        Some(Seq::empty())
    } else {
        match (list_html(v.drop_last(), key, toc, g), v.last().html(key, toc, g)) {
            (Some(a), Some(b)) => Some(
                a + "<div class=\"content-list-item\">".spec_bytes() + b + "</div>".spec_bytes(),
            ),
            _ => None,
        }
    }
}

/// Markup of an item under its key: a value in a content container, a
/// list in a list container, or the table of contents (nothing where it
/// has no entries).
pub open spec fn item_html<T: RenderNestedWithId>(
    key: Seq<char>,
    item: Item<T>,
    toc: Seq<TocView>,
    g: Answers,
) -> Option<Seq<u8>> {
    match item {
        Item::Normal(x) => match x.html(key, toc, g) {
            Some(h) => Some(
                "<div class=\"content-item\" data-key=\"".spec_bytes() + escaped(
                    encode_utf8(key),
                    true,
                ) + "\">".spec_bytes() + h + "</div>".spec_bytes(),
            ),
            None => None,
        },
        Item::List(v) => match list_html(v@, key, toc, g) {
            Some(h) => Some(
                "<div class=\"content-list\" data-key=\"".spec_bytes() + escaped(
                    encode_utf8(key),
                    true,
                ) + "\">".spec_bytes() + h + "</div>".spec_bytes(),
            ),
            None => None,
        },
        Item::Toc(_) => Some(
            if toc.len() == 0 {
                Seq::empty()
            } else {
                toc_block_html(toc)
            },
        ),
    }
}

/// Markup of an ordered mapping of keys to items, in order.
pub open spec fn items_html<T: RenderNestedWithId>(
    es: Seq<(String, Item<T>)>,
    toc: Seq<TocView>,
    g: Answers,
) -> Option<Seq<u8>>
    decreases es.len(),
{
    if es.len() == 0 {
        Some(Seq::empty())
    } else {
        match (items_html(es.drop_last(), toc, g), item_html(es.last().0@, es.last().1, toc, g)) {
            (Some(a), Some(b)) => Some(a + b),
            _ => None,
        }
    }
}

fn render_list<T: RenderNestedWithId>(
    values: &Vec<T>,
    key: &str,
    highlighter: &CodeHighlighter,
    toc_entries: &Vec<TocEntry>,
    cache: &mut HighlightCache,
) -> (r: Result<Vec<u8>, ArticleError>)
    requires
        old(cache).wf(),
    ensures
        final(cache).wf(),
        final(cache).extends(*old(cache)),
        forall|g: Answers|
            #[trigger] final(cache).agrees(g) ==> match list_html(values@, key@, toc_views(toc_entries@), g) {
                Some(h) => r matches Ok(v) && v@ == h,
                None => r == Err::<Vec<u8>, ArticleError>(ArticleError::RawHtmlNotHtml),
            },
{
    let ghost toc = toc_views(toc_entries@);
    let ghost cache0 = *cache;
    let mut out: Vec<u8> = Vec::new();
    let mut i: usize = 0;
    assert forall|j: int| 0 <= j < cache0.entries@.len() implies #[trigger] cache.entries@[j]
        == cache0.entries@[j] by {}
    while i < values.len()
        invariant
            i <= values@.len(),
            toc == toc_views(toc_entries@),
            cache0 == *old(cache),
            cache.wf(),
            cache.extends(cache0),
            forall|g: Answers|
                #[trigger] cache.agrees(g) ==> list_html(values@.subrange(0, i as int), key@, toc, g)
                    == Some(out@),
        decreases values@.len() - i,
    {
        let ghost pre = values@.subrange(0, i as int);
        let ghost cb = *cache;
        let ghost before = out@;
        proof {
            assert(values@.subrange(0, i + 1).drop_last() =~= pre);
        }
        match values[i].render_with_id(key, highlighter, toc_entries, cache) {
            Ok(v) => {
                push_str(&mut out, "<div class=\"content-list-item\">");
                push_bytes(&mut out, v.as_slice());
                push_str(&mut out, "</div>");
                proof {
                    lemma_extends_trans(cache0, cb, *cache);
                    assert forall|g: Answers| #[trigger] cache.agrees(g) implies list_html(
                        values@.subrange(0, i + 1),
                        key@,
                        toc,
                        g,
                    ) == Some(out@) by {
                        lemma_agrees_prefix(*cache, cb, g);
                        assert(cb.agrees(g));
                    }
                }
            },
            Err(e) => {
                proof {
                    lemma_extends_trans(cache0, cb, *cache);
                    assert forall|g: Answers| #[trigger] cache.agrees(g) implies list_html(
                        values@,
                        key@,
                        toc,
                        g,
                    ) is None by {
                        lemma_agrees_prefix(*cache, cb, g);
                        lemma_list_none_extends(values@, i as int, key@, toc, g);
                    }
                }
                return Err(e);
            },
        }
        i += 1;
    }
    proof {
        assert(values@.subrange(0, values@.len() as int) =~= values@);
    }
    Ok(out)
}

proof fn lemma_list_none_extends<T: RenderNestedWithId>(
    v: Seq<T>,
    i: int,
    key: Seq<char>,
    toc: Seq<TocView>,
    g: Answers,
)
    requires
        0 <= i < v.len(),
        list_html(v.subrange(0, i + 1), key, toc, g) is None,
    ensures
        list_html(v, key, toc, g) is None,
    decreases v.len() - i,
{
    if i + 1 < v.len() {
        assert(v.subrange(0, i + 2).drop_last() =~= v.subrange(0, i + 1));
        lemma_list_none_extends(v, i + 1, key, toc, g);
    } else {
        assert(v.subrange(0, i + 1) =~= v);
    }
}

proof fn lemma_items_none_extends<T: RenderNestedWithId>(
    es: Seq<(String, Item<T>)>,
    i: int,
    toc: Seq<TocView>,
    g: Answers,
)
    requires
        0 <= i < es.len(),
        items_html(es.subrange(0, i + 1), toc, g) is None,
    ensures
        items_html(es, toc, g) is None,
    decreases es.len() - i,
{
    if i + 1 < es.len() {
        assert(es.subrange(0, i + 2).drop_last() =~= es.subrange(0, i + 1));
        lemma_items_none_extends(es, i + 1, toc, g);
    } else {
        assert(es.subrange(0, i + 1) =~= es);
    }
}

/// Renders an item under its key.
pub fn render_item_with_id<T: RenderNestedWithId>(
    key: &str,
    item: &Item<T>,
    highlighter: &CodeHighlighter,
    toc_entries: &Vec<TocEntry>,
    cache: &mut HighlightCache,
) -> (r: Result<Vec<u8>, ArticleError>)
    requires
        old(cache).wf(),
    ensures
        final(cache).wf(),
        final(cache).extends(*old(cache)),
        forall|g: Answers|
            #[trigger] final(cache).agrees(g) ==> match item_html(key@, *item, toc_views(toc_entries@), g) {
                Some(h) => r matches Ok(v) && v@ == h,
                None => r == Err::<Vec<u8>, ArticleError>(ArticleError::RawHtmlNotHtml),
            },
{
    assert forall|j: int| 0 <= j < cache.entries@.len() implies #[trigger] cache.entries@[j]
        == cache.entries@[j] by {}
    match item {
        Item::Normal(value) => match value.render_with_id(key, highlighter, toc_entries, cache) {
            Ok(v) => {
                let mut out: Vec<u8> = Vec::new();
                push_str(&mut out, "<div class=\"content-item\" data-key=\"");
                push_escaped(&mut out, key.as_bytes(), true);
                push_str(&mut out, "\">");
                push_bytes(&mut out, v.as_slice());
                push_str(&mut out, "</div>");
                Ok(out)
            },
            Err(e) => Err(e),
        },
        Item::List(values) => match render_list(values, key, highlighter, toc_entries, cache) {
            Ok(v) => {
                let mut out: Vec<u8> = Vec::new();
                push_str(&mut out, "<div class=\"content-list\" data-key=\"");
                push_escaped(&mut out, key.as_bytes(), true);
                push_str(&mut out, "\">");
                push_bytes(&mut out, v.as_slice());
                push_str(&mut out, "</div>");
                Ok(out)
            },
            Err(e) => Err(e),
        },
        Item::Toc(_) => {
            if toc_entries.len() == 0 {
                proof {
                    assert(toc_views(toc_entries@) =~= Seq::<TocView>::empty());
                }
                Ok(Vec::new())
            } else {
                proof {
                    lemma_toc_views_len(toc_entries@);
                }
                Ok(render_toc(toc_entries))
            }
        },
    }
}

/// Renders an ordered mapping of keys to items, in order.
pub fn render_items<T: RenderNestedWithId>(
    sections: &Vec<(String, Item<T>)>,
    highlighter: &CodeHighlighter,
    toc_entries: &Vec<TocEntry>,
    cache: &mut HighlightCache,
) -> (r: Result<Vec<u8>, ArticleError>)
    requires
        old(cache).wf(),
    ensures
        final(cache).wf(),
        final(cache).extends(*old(cache)),
        forall|g: Answers|
            #[trigger] final(cache).agrees(g) ==> match items_html(sections@, toc_views(toc_entries@), g) {
                Some(h) => r matches Ok(v) && v@ == h,
                None => r == Err::<Vec<u8>, ArticleError>(ArticleError::RawHtmlNotHtml),
            },
{
    let ghost toc = toc_views(toc_entries@);
    let ghost cache0 = *cache;
    let mut out: Vec<u8> = Vec::new();
    let mut i: usize = 0;
    assert forall|j: int| 0 <= j < cache0.entries@.len() implies #[trigger] cache.entries@[j]
        == cache0.entries@[j] by {}
    while i < sections.len()
        invariant
            i <= sections@.len(),
            toc == toc_views(toc_entries@),
            cache0 == *old(cache),
            cache.wf(),
            cache.extends(cache0),
            forall|g: Answers|
                #[trigger] cache.agrees(g) ==> items_html(sections@.subrange(0, i as int), toc, g)
                    == Some(out@),
        decreases sections@.len() - i,
    {
        let ghost pre = sections@.subrange(0, i as int);
        let ghost cb = *cache;
        proof {
            assert(sections@.subrange(0, i + 1).drop_last() =~= pre);
        }
        let (key, item) = &sections[i];
        match render_item_with_id(key.as_str(), item, highlighter, toc_entries, cache) {
            Ok(v) => {
                push_bytes(&mut out, v.as_slice());
                proof {
                    lemma_extends_trans(cache0, cb, *cache);
                    assert forall|g: Answers| #[trigger] cache.agrees(g) implies items_html(
                        sections@.subrange(0, i + 1),
                        toc,
                        g,
                    ) == Some(out@) by {
                        lemma_agrees_prefix(*cache, cb, g);
                        assert(cb.agrees(g));
                    }
                }
            },
            Err(e) => {
                proof {
                    lemma_extends_trans(cache0, cb, *cache);
                    assert forall|g: Answers| #[trigger] cache.agrees(g) implies items_html(
                        sections@,
                        toc,
                        g,
                    ) is None by {
                        lemma_agrees_prefix(*cache, cb, g);
                        lemma_items_none_extends(sections@, i as int, toc, g);
                    }
                }
                return Err(e);
            },
        }
        i += 1;
    }
    proof {
        assert(sections@.subrange(0, sections@.len() as int) =~= sections@);
    }
    Ok(out)
}

/// The heading element for a level: the level itself for `h2` to `h6`,
/// else `h2`.
pub open spec fn heading_tag(level: Seq<char>) -> Seq<char> {
    if level == "h2"@ || level == "h3"@ || level == "h4"@ || level == "h5"@ || level == "h6"@ {
        level
    } else {
        "h2"@
    }
}

/// The heading element for a level.
pub fn heading_tag_of(level: &str) -> (r: &str)
    ensures
        r@ == heading_tag(level@),
{
    if str_eq(level, "h2") || str_eq(level, "h3") || str_eq(level, "h4") || str_eq(level, "h5")
        || str_eq(level, "h6") {
        level
    } else {
        "h2"
    }
}

/// Markup of a section of the heading level `level` (`h2` to `h6`): a
/// heading that carries the section's key as its id, then its items. The
/// section's class names `level` as given; the heading element falls back
/// to `h2` for any other level.
pub open spec fn section_html(
    level: Seq<char>,
    id: Seq<char>,
    header: Text,
    body: Option<Seq<u8>>,
    g: Answers,
) -> Option<Seq<u8>> {
    match body {
        Some(b) => Some(
            "<section class=\"article-section article-section-".spec_bytes() + encode_utf8(level)
                + "\"><".spec_bytes() + encode_utf8(heading_tag(level))
                + " class=\"section-header\" id=\"".spec_bytes()
                + escaped(encode_utf8(id), true) + "\">".spec_bytes() + text_html(header, g)
                + "</".spec_bytes() + encode_utf8(heading_tag(level)) + ">".spec_bytes()
                + b + "</section>".spec_bytes(),
        ),
        None => None,
    }
}

/// Renders a section: its heading, then its items.
pub fn render_section_with_id<T: RenderNestedWithId>(
    id: &str,
    header: &Text,
    sections: &Vec<(String, Item<T>)>,
    level: &str,
    highlighter: &CodeHighlighter,
    toc_entries: &Vec<TocEntry>,
    cache: &mut HighlightCache,
) -> (r: Result<Vec<u8>, ArticleError>)
    requires
        old(cache).wf(),
    ensures
        final(cache).wf(),
        final(cache).extends(*old(cache)),
        forall|g: Answers|
            #[trigger] final(cache).agrees(g) ==> match section_html(
                level@,
                id@,
                *header,
                items_html(sections@, toc_views(toc_entries@), g),
                g,
            ) {
                Some(h) => r matches Ok(v) && v@ == h,
                None => r == Err::<Vec<u8>, ArticleError>(ArticleError::RawHtmlNotHtml),
            },
{
    let ghost cache0 = *cache;
    match render_items(sections, highlighter, toc_entries, cache) {
        Ok(body) => {
            let ghost cb = *cache;
            let mut out: Vec<u8> = Vec::new();
            push_str(&mut out, "<section class=\"article-section article-section-");
            push_str(&mut out, level);
            let tag = heading_tag_of(level);
            push_str(&mut out, "\"><");
            push_str(&mut out, tag);
            push_str(&mut out, " class=\"section-header\" id=\"");
            push_escaped(&mut out, id.as_bytes(), true);
            push_str(&mut out, "\">");
            let head = text_markup(header, highlighter, cache);
            push_bytes(&mut out, head.as_slice());
            push_str(&mut out, "</");
            push_str(&mut out, tag);
            push_str(&mut out, ">");
            push_bytes(&mut out, body.as_slice());
            push_str(&mut out, "</section>");
            proof {
                lemma_extends_trans(cache0, cb, *cache);
                assert forall|g: Answers| #[trigger] cache.agrees(g) implies out@ == section_html(
                    level@,
                    id@,
                    *header,
                    items_html(sections@, toc_views(toc_entries@), g),
                    g,
                )->0 && section_html(
                    level@,
                    id@,
                    *header,
                    items_html(sections@, toc_views(toc_entries@), g),
                    g,
                ) is Some by {
                    lemma_agrees_prefix(*cache, cb, g);
                    assert(cb.agrees(g));
                }
            }
            Ok(out)
        },
        Err(e) => Err(e),
    }
}


impl RenderNestedWithId for Text {
    open spec fn html(&self, id: Seq<char>, toc: Seq<TocView>, g: Answers) -> Option<Seq<u8>> {
        Some(text_html(*self, g))
    }

    proof fn lemma_html_valid(&self, id: Seq<char>, toc: Seq<TocView>, g: Answers) {
        lemma_text_valid(*self, g);
    }

    fn render_with_id(
        &self,
        id: &str,
        highlighter: &CodeHighlighter,
        toc_entries: &Vec<TocEntry>,
        cache: &mut HighlightCache,
    ) -> (r: Result<Vec<u8>, ArticleError>) {
        Ok(text_markup(self, highlighter, cache))
    }
}

impl<T: RenderNestedWithId> RenderNestedWithId for TextOrNested<T> {
    open spec fn html(&self, id: Seq<char>, toc: Seq<TocView>, g: Answers) -> Option<Seq<u8>> {
        match self {
            TextOrNested::Text { text, mark } => leaf_html(*text, *mark, g),
            TextOrNested::Nested(n) => n.html(id, toc, g),
        }
    }

    proof fn lemma_html_valid(&self, id: Seq<char>, toc: Seq<TocView>, g: Answers) {
        match self {
            TextOrNested::Text { text, mark } => lemma_leaf_valid(*text, *mark, g),
            TextOrNested::Nested(n) => n.lemma_html_valid(id, toc, g),
        }
    }

    fn render_with_id(
        &self,
        id: &str,
        highlighter: &CodeHighlighter,
        toc_entries: &Vec<TocEntry>,
        cache: &mut HighlightCache,
    ) -> (r: Result<Vec<u8>, ArticleError>) {
        match self {
            TextOrNested::Text { text, mark } => render_text_with_mark(text, mark, highlighter, cache),
            TextOrNested::Nested(nested) => nested.render_with_id(id, highlighter, toc_entries, cache),
        }
    }
}

impl RenderNestedWithId for Level2 {
    open spec fn html(&self, id: Seq<char>, toc: Seq<TocView>, g: Answers) -> Option<Seq<u8>> {
        section_html("h2"@, id, self.header, items_html(self.sections@, toc, g), g)
    }

    proof fn lemma_html_valid(&self, id: Seq<char>, toc: Seq<TocView>, g: Answers) {
        lemma_items_valid(self.sections@, toc, g);
        lemma_section_valid("h2"@, id, self.header, items_html(self.sections@, toc, g), g);
    }

    fn render_with_id(
        &self,
        id: &str,
        highlighter: &CodeHighlighter,
        toc_entries: &Vec<TocEntry>,
        cache: &mut HighlightCache,
    ) -> (r: Result<Vec<u8>, ArticleError>) {
        render_section_with_id(
            id,
            &self.header,
            &self.sections,
            "h2",
            highlighter,
            toc_entries,
            cache,
        )
    }
}

impl RenderNestedWithId for Level3 {
    open spec fn html(&self, id: Seq<char>, toc: Seq<TocView>, g: Answers) -> Option<Seq<u8>> {
        section_html("h3"@, id, self.header, items_html(self.sections@, toc, g), g)
    }

    proof fn lemma_html_valid(&self, id: Seq<char>, toc: Seq<TocView>, g: Answers) {
        lemma_items_valid(self.sections@, toc, g);
        lemma_section_valid("h3"@, id, self.header, items_html(self.sections@, toc, g), g);
    }

    fn render_with_id(
        &self,
        id: &str,
        highlighter: &CodeHighlighter,
        toc_entries: &Vec<TocEntry>,
        cache: &mut HighlightCache,
    ) -> (r: Result<Vec<u8>, ArticleError>) {
        render_section_with_id(
            id,
            &self.header,
            &self.sections,
            "h3",
            highlighter,
            toc_entries,
            cache,
        )
    }
}

impl RenderNestedWithId for Level4 {
    open spec fn html(&self, id: Seq<char>, toc: Seq<TocView>, g: Answers) -> Option<Seq<u8>> {
        section_html("h4"@, id, self.header, items_html(self.sections@, toc, g), g)
    }

    proof fn lemma_html_valid(&self, id: Seq<char>, toc: Seq<TocView>, g: Answers) {
        lemma_items_valid(self.sections@, toc, g);
        lemma_section_valid("h4"@, id, self.header, items_html(self.sections@, toc, g), g);
    }

    fn render_with_id(
        &self,
        id: &str,
        highlighter: &CodeHighlighter,
        toc_entries: &Vec<TocEntry>,
        cache: &mut HighlightCache,
    ) -> (r: Result<Vec<u8>, ArticleError>) {
        render_section_with_id(
            id,
            &self.header,
            &self.sections,
            "h4",
            highlighter,
            toc_entries,
            cache,
        )
    }
}

impl RenderNestedWithId for Level5 {
    open spec fn html(&self, id: Seq<char>, toc: Seq<TocView>, g: Answers) -> Option<Seq<u8>> {
        section_html("h5"@, id, self.header, items_html(self.sections@, toc, g), g)
    }

    proof fn lemma_html_valid(&self, id: Seq<char>, toc: Seq<TocView>, g: Answers) {
        lemma_items_valid(self.sections@, toc, g);
        lemma_section_valid("h5"@, id, self.header, items_html(self.sections@, toc, g), g);
    }

    fn render_with_id(
        &self,
        id: &str,
        highlighter: &CodeHighlighter,
        toc_entries: &Vec<TocEntry>,
        cache: &mut HighlightCache,
    ) -> (r: Result<Vec<u8>, ArticleError>) {
        render_section_with_id(
            id,
            &self.header,
            &self.sections,
            "h5",
            highlighter,
            toc_entries,
            cache,
        )
    }
}

impl RenderNestedWithId for Level6 {
    open spec fn html(&self, id: Seq<char>, toc: Seq<TocView>, g: Answers) -> Option<Seq<u8>> {
        section_html("h6"@, id, self.header, items_html(self.sections@, toc, g), g)
    }

    proof fn lemma_html_valid(&self, id: Seq<char>, toc: Seq<TocView>, g: Answers) {
        lemma_items_valid(self.sections@, toc, g);
        lemma_section_valid("h6"@, id, self.header, items_html(self.sections@, toc, g), g);
    }

    fn render_with_id(
        &self,
        id: &str,
        highlighter: &CodeHighlighter,
        toc_entries: &Vec<TocEntry>,
        cache: &mut HighlightCache,
    ) -> (r: Result<Vec<u8>, ArticleError>) {
        render_section_with_id(
            id,
            &self.header,
            &self.sections,
            "h6",
            highlighter,
            toc_entries,
            cache,
        )
    }
}

/// The markup of table-of-contents entries is valid UTF-8.
pub proof fn lemma_toc_items_valid(es: Seq<TocView>)
    ensures
        valid_utf8(toc_items_html(es)),
    decreases es,
{
    lemma_valid_parts();
    if es.len() > 0 {
        lemma_toc_items_valid(es.drop_last());
        lemma_toc_item_valid(es.last());
    }
}

/// The markup of a table-of-contents entry is valid UTF-8.
pub proof fn lemma_toc_item_valid(e: TocView)
    ensures
        valid_utf8(toc_item_html(e)),
    decreases e,
{
    lemma_valid_parts();
    if e.children.len() > 0 {
        lemma_toc_items_valid(e.children);
    }
}

proof fn lemma_list_valid<T: RenderNestedWithId>(v: Seq<T>, key: Seq<char>, toc: Seq<TocView>, g: Answers)
    requires
        answers_ok(g),
    ensures
        list_html(v, key, toc, g) matches Some(h) ==> valid_utf8(h),
    decreases v.len(),
{
    lemma_valid_parts();
    if v.len() > 0 {
        lemma_list_valid(v.drop_last(), key, toc, g);
        v.last().lemma_html_valid(key, toc, g);
    }
}

proof fn lemma_items_valid<T: RenderNestedWithId>(es: Seq<(String, Item<T>)>, toc: Seq<TocView>, g: Answers)
    requires
        answers_ok(g),
    ensures
        items_html(es, toc, g) matches Some(h) ==> valid_utf8(h),
    decreases es.len(),
{
    lemma_valid_parts();
    if es.len() > 0 {
        lemma_items_valid(es.drop_last(), toc, g);
        let (key, item) = es.last();
        match item {
            Item::Normal(x) => x.lemma_html_valid(key@, toc, g),
            Item::List(v) => lemma_list_valid(v@, key@, toc, g),
            Item::Toc(_) => lemma_toc_items_valid(toc),
        }
    }
}

proof fn lemma_section_valid(level: Seq<char>, id: Seq<char>, header: Text, body: Option<Seq<u8>>, g: Answers)
    requires
        answers_ok(g),
        body matches Some(b) ==> valid_utf8(b),
    ensures
        section_html(level, id, header, body, g) matches Some(h) ==> valid_utf8(h),
{
    lemma_valid_parts();
    lemma_text_valid(header, g);
}

/// The characters of an optional string.
pub open spec fn opt_view(o: Option<&str>) -> Option<Seq<char>> {
    match o {
        Some(h) => Some(h@),
        None => None,
    }
}

/// The repository that source links point into.
pub const GITHUB_REPO: &'static str = "eure-lang/blog.eure.dev";

/// Address of an article's source file at a commit.
pub open spec fn github_url(hash: Seq<char>, slug: Seq<char>) -> Seq<u8> {
    "https://github.com/".spec_bytes() + GITHUB_REPO.spec_bytes() + "/blob/".spec_bytes()
        + encode_utf8(hash) + "/articles/".spec_bytes() + encode_utf8(slug) + ".eure".spec_bytes()
}

/// Markup of the link to an article's source on GitHub, where a commit is known.
pub open spec fn github_link_html(commit: Option<Seq<char>>, slug: Seq<char>, class: Seq<char>) -> Seq<u8> {
    match commit {
        Some(h) => "<a class=\"".spec_bytes() + encode_utf8(class) + "\" href=\"".spec_bytes()
            + escaped(github_url(h, slug), true)
            + "\" target=\"_blank\" rel=\"noopener noreferrer\">GitHub</a>".spec_bytes(),
        None => Seq::empty(),
    }
}

/// Markup of tags, one span each.
pub open spec fn tag_spans(tags: Seq<String>) -> Seq<u8>
    decreases tags.len(),
{
    if tags.len() == 0 {
        Seq::empty()
    } else {
        tag_spans(tags.drop_last()) + "<span class=\"article-tag\">".spec_bytes() + escaped(
            encode_utf8(tags.last()@),
            true,
        ) + "</span>".spec_bytes()
    }
}

/// Markup of an article's tags: nothing where it has none.
pub open spec fn tags_html(tags: Seq<String>) -> Seq<u8> {
    if tags.len() == 0 {
        Seq::empty()
    } else {
        "<div class=\"article-tags\">".spec_bytes() + tag_spans(tags) + "</div>".spec_bytes()
    }
}

/// Markup of an optional date.
pub open spec fn date_html(date: Option<Text>) -> Seq<u8> {
    match date {
        Some(d) => "<time class=\"article-date\">".spec_bytes() + escaped(
            encode_utf8(d.content@),
            true,
        ) + "</time>".spec_bytes(),
        None => Seq::empty(),
    }
}

/// Markup of an article's header: title, date, links and tags.
pub open spec fn article_header_html(a: Article, slug: Seq<char>, commit: Option<Seq<char>>, g: Answers) -> Seq<
    u8,
> {
    "<article class=\"article\"><header class=\"article-header\"><h1 class=\"article-title\">".spec_bytes()
        + text_html(a.header, g) + "</h1><div class=\"article-meta\">".spec_bytes() + date_html(
        a.frontmatter.date,
    ) + links_html(slug, commit) + "</div>".spec_bytes() + tags_html(a.frontmatter.tags@)
        + "</header>".spec_bytes()
}

/// Markup of an article's links: to its source page and, where a commit is
/// known, to its file on GitHub.
pub open spec fn links_html(slug: Seq<char>, commit: Option<Seq<char>>) -> Seq<u8> {
    "<div class=\"article-links\"><a class=\"article-source-link\" href=\"".spec_bytes()
        + escaped("/source/".spec_bytes() + encode_utf8(slug) + ".html".spec_bytes(), true)
        + "\">Source</a>".spec_bytes() + github_link_html(commit, slug, "article-github-link"@)
        + "</div>".spec_bytes()
}

/// Markup of an article without the page around it, with the table of
/// contents `toc`; `None` where a leaf's marks are refused.
pub open spec fn article_html(
    a: Article,
    slug: Seq<char>,
    commit: Option<Seq<char>>,
    toc: Seq<TocView>,
    g: Answers,
) -> Option<Seq<u8>> {
    match items_html(a.sections@, toc, g) {
        Some(b) => Some(
            article_header_html(a, slug, commit, g) + "<div class=\"article-content\">".spec_bytes()
                + b + "</div></article>".spec_bytes(),
        ),
        None => None,
    }
}

/// The start of every page, up to its content.
pub open spec fn base_open(title: Seq<u8>) -> Seq<u8> {
    "<!DOCTYPE html><html lang=\"en\"><head><meta charset=\"utf-8\"><meta name=\"viewport\" content=\"width=device-width, initial-scale=1\"><title>".spec_bytes()
        + escaped(title, true)
        + " | Eure Blog</title><link rel=\"stylesheet\" href=\"/styles/main.css\"><link rel=\"stylesheet\" href=\"/styles/syntax.css\"><link rel=\"stylesheet\" href=\"/styles/eure-syntax.css\"></head><body><header class=\"site-header\"><nav class=\"site-nav\"><a class=\"site-title\" href=\"/\">Eure Blog</a></nav></header><main class=\"site-main\">".spec_bytes()
}

/// The end of every page, after its content.
pub open spec fn base_close() -> Seq<u8> {
    "</main><footer class=\"site-footer\"><p>Powered by Eure</p></footer></body></html>".spec_bytes()
}

/// A page with the site's layout around `content`.
pub open spec fn page_html(title: Seq<u8>, content: Seq<u8>) -> Seq<u8> {
    base_open(title) + content + base_close()
}

fn push_base_open(out: &mut Vec<u8>, title: &str)
    ensures
        final(out)@ == old(out)@ + base_open(title.spec_bytes()),
{
    push_str(
        out,
        "<!DOCTYPE html><html lang=\"en\"><head><meta charset=\"utf-8\"><meta name=\"viewport\" content=\"width=device-width, initial-scale=1\"><title>",
    );
    push_escaped(out, title.as_bytes(), true);
    push_str(
        out,
        " | Eure Blog</title><link rel=\"stylesheet\" href=\"/styles/main.css\"><link rel=\"stylesheet\" href=\"/styles/syntax.css\"><link rel=\"stylesheet\" href=\"/styles/eure-syntax.css\"></head><body><header class=\"site-header\"><nav class=\"site-nav\"><a class=\"site-title\" href=\"/\">Eure Blog</a></nav></header><main class=\"site-main\">",
    );
    proof {
        assert(final(out)@ =~= old(out)@ + base_open(title.spec_bytes()));
    }
}

fn layout_markup(title: &str, content: &[u8]) -> (r: Vec<u8>)
    ensures
        r@ == page_html(title.spec_bytes(), content@),
{
    let mut out: Vec<u8> = Vec::new();
    push_base_open(&mut out, title);
    push_bytes(&mut out, content);
    push_str(
        &mut out,
        "</main><footer class=\"site-footer\"><p>Powered by Eure</p></footer></body></html>",
    );
    out
}

/// A page with the site's layout around the markup `content`.
pub fn base_layout(title: &str, content: &str) -> (r: String)
    ensures
        r@ == decode_utf8(page_html(title.spec_bytes(), content.spec_bytes())),
{
    let out = layout_markup(title, content.as_bytes());
    proof {
        lemma_valid_parts();
    }
    utf8_to_string(out.as_slice())
}

fn push_github_link(out: &mut Vec<u8>, commit_hash: Option<&str>, slug: &str, class: &str)
    ensures
        final(out)@ == old(out)@ + github_link_html(
            opt_view(commit_hash),
            slug@,
            class@,
        ),
{
    match commit_hash {
        Some(hash) => {
            let mut url: Vec<u8> = Vec::new();
            push_str(&mut url, "https://github.com/");
            push_str(&mut url, GITHUB_REPO);
            push_str(&mut url, "/blob/");
            push_str(&mut url, hash);
            push_str(&mut url, "/articles/");
            push_str(&mut url, slug);
            push_str(&mut url, ".eure");
            push_str(out, "<a class=\"");
            push_str(out, class);
            push_str(out, "\" href=\"");
            push_escaped(out, url.as_slice(), true);
            push_str(out, "\" target=\"_blank\" rel=\"noopener noreferrer\">GitHub</a>");
            proof {
                assert(url@ =~= github_url(hash@, slug@));
                assert(final(out)@ =~= old(out)@ + github_link_html(Some(hash@), slug@, class@));
            }
        },
        None => {},
    }
}

fn push_tags(out: &mut Vec<u8>, tags: &Vec<String>)
    ensures
        final(out)@ == old(out)@ + tags_html(tags@),
{
    if tags.len() == 0 {
        return ;
    }
    push_str(out, "<div class=\"article-tags\">");
    let ghost start = out@;
    let mut i: usize = 0;
    while i < tags.len()
        invariant
            i <= tags@.len(),
            out@ == start + tag_spans(tags@.subrange(0, i as int)),
        decreases tags@.len() - i,
    {
        push_str(out, "<span class=\"article-tag\">");
        push_escaped(out, tags[i].as_str().as_bytes(), true);
        push_str(out, "</span>");
        proof {
            assert(tags@.subrange(0, i + 1).drop_last() =~= tags@.subrange(0, i as int));
        }
        i += 1;
    }
    push_str(out, "</div>");
    proof {
        assert(tags@.subrange(0, tags@.len() as int) =~= tags@);
    }
}

fn push_links(out: &mut Vec<u8>, slug: &str, commit_hash: Option<&str>)
    ensures
        final(out)@ == old(out)@ + links_html(
            slug@,
            opt_view(commit_hash),
        ),
{
    push_str(out, "<div class=\"article-links\"><a class=\"article-source-link\" href=\"");
    let mut href: Vec<u8> = Vec::new();
    push_str(&mut href, "/source/");
    push_str(&mut href, slug);
    push_str(&mut href, ".html");
    push_escaped(out, href.as_slice(), true);
    push_str(out, "\">Source</a>");
    push_github_link(out, commit_hash, slug, "article-github-link");
    push_str(out, "</div>");
    proof {
        assert(href@ =~= "/source/".spec_bytes() + slug.spec_bytes() + ".html".spec_bytes());
        assert(final(out)@ =~= old(out)@ + links_html(
            slug@,
            opt_view(commit_hash),
        ));
    }
}

fn push_date(out: &mut Vec<u8>, date: &Option<Text>)
    ensures
        final(out)@ == old(out)@ + date_html(*date),
{
    match date {
        Some(d) => {
            push_str(out, "<time class=\"article-date\">");
            push_escaped(out, d.content.as_str().as_bytes(), true);
            push_str(out, "</time>");
            proof {
                assert(final(out)@ =~= old(out)@ + date_html(*date));
            }
        },
        None => {},
    }
}

fn push_article_header(
    out: &mut Vec<u8>,
    article: &Article,
    slug: &str,
    commit_hash: Option<&str>,
    highlighter: &CodeHighlighter,
    cache: &mut HighlightCache,
)
    requires
        old(cache).wf(),
    ensures
        final(cache).wf(),
        final(cache).extends(*old(cache)),
        forall|g: Answers|
            #[trigger] final(cache).agrees(g) ==> final(out)@ == old(out)@ + article_header_html(
                *article,
                slug@,
                opt_view(commit_hash),
                g,
            ),
{
    let ghost commit = opt_view(commit_hash);
    let ghost a = *article;
    let ghost out0 = out@;
    push_str(
        out,
        "<article class=\"article\"><header class=\"article-header\"><h1 class=\"article-title\">",
    );
    let title = text_markup(&article.header, highlighter, cache);
    push_bytes(out, title.as_slice());
    push_str(out, "</h1><div class=\"article-meta\">");
    let ghost s1 = out@;
    push_date(out, &article.frontmatter.date);
    push_links(out, slug, commit_hash);
    push_str(out, "</div>");
    let ghost s2 = out@;
    assert(s2 == s1 + date_html(a.frontmatter.date) + links_html(slug@, commit) + "</div>".spec_bytes());
    push_tags(out, &article.frontmatter.tags);
    push_str(out, "</header>");
    proof {
        assert forall|g: Answers| #[trigger] cache.agrees(g) implies out@ == out0
            + article_header_html(a, slug@, commit, g) by {
            assert(out@ =~= out0 + article_header_html(a, slug@, commit, g));
        }
    }
}

/// The page of an article, where its table of contents builds.
pub open spec fn article_page_html(
    a: Article,
    slug: Seq<char>,
    commit: Option<Seq<char>>,
    g: Answers,
) -> Option<Seq<u8>> {
    match article_html(a, slug, commit, article_toc(a), g) {
        Some(h) => Some(page_html(encode_utf8(a.frontmatter.title.content@), h)),
        None => None,
    }
}

/// Renders the page of an article. Its table of contents is built first:
/// an id seen twice anywhere fails the whole page, naming that id; a leaf
/// marked as raw HTML that is not tagged `html` fails it too. The markup
/// rests on one answer of giallo for each block or line it highlights.
pub fn render_article_page(
    article: &Article,
    slug: &str,
    commit_hash: Option<&str>,
    highlighter: &CodeHighlighter,
) -> (r: Result<String, ArticleError>)
    ensures
        match first_dup(Seq::empty(), article_keys(*article)) {
            Some(k) => r matches Err(ArticleError::DuplicateSectionId(s)) && s@ == k,
            None => exists|g: Answers|
                answers_ok(g) && match #[trigger] article_page_html(
                    *article,
                    slug@,
                    opt_view(commit_hash),
                    g,
                ) {
                    Some(h) => r matches Ok(s) && s@ == decode_utf8(h),
                    None => r == Err::<String, ArticleError>(ArticleError::RawHtmlNotHtml),
                },
        },
{
    let ghost commit = opt_view(commit_hash);
    let toc_entries = match build_toc(article) {
        Ok(es) => es,
        Err(e) => {
            return Err(e);
        },
    };
    let mut cache = HighlightCache::new();
    let body = match render_items(&article.sections, highlighter, &toc_entries, &mut cache) {
        Ok(b) => b,
        Err(e) => {
            proof {
                let g = cache.answers();
                lemma_cache_answers(cache);
                assert(article_page_html(*article, slug@, commit, g) is None);
            }
            return Err(e);
        },
    };
    let ghost cb = cache;
    let mut content: Vec<u8> = Vec::new();
    push_article_header(&mut content, article, slug, commit_hash, highlighter, &mut cache);
    push_str(&mut content, "<div class=\"article-content\">");
    push_bytes(&mut content, body.as_slice());
    push_str(&mut content, "</div></article>");
    let page = layout_markup(article.frontmatter.title.content.as_str(), content.as_slice());
    proof {
        let g = cache.answers();
        lemma_cache_answers(cache);
        lemma_agrees_prefix(cache, cb, g);
        lemma_article_valid(*article, slug@, commit, article_toc(*article), g);
        assert(article_html(*article, slug@, commit, article_toc(*article), g) == Some(
            content@,
        ));
        assert(article_page_html(*article, slug@, commit, g) == Some(page@));
    }
    Ok(utf8_to_string(page.as_slice()))
}

/// Markup of the page body that shows an article's Eure source, each line
/// numbered.
pub open spec fn source_html(
    slug: Seq<char>,
    title: Seq<char>,
    source: Seq<u8>,
    commit: Option<Seq<char>>,
    g: Answers,
) -> Seq<u8> {
    "<article class=\"source-view\"><header class=\"source-header\"><h1 class=\"source-title\">Source: ".spec_bytes()
        + escaped(encode_utf8(title), true)
        + "</h1><div class=\"source-actions\"><a class=\"source-back-link\" href=\"".spec_bytes()
        + escaped("/articles/".spec_bytes() + encode_utf8(slug) + ".html".spec_bytes(), true)
        + "\">\u{2190} Back to article</a>".spec_bytes() + github_link_html(
        commit,
        slug,
        "source-github-link"@,
    ) + "</div></header><div class=\"source-content\">".spec_bytes() + eure_block(
        source,
        true,
        true,
    g,
    ) + "</div></article>".spec_bytes()
}

fn push_source_head(out: &mut Vec<u8>, slug: &str, title: &str)
    ensures
        final(out)@ == old(out)@
            + "<article class=\"source-view\"><header class=\"source-header\"><h1 class=\"source-title\">Source: ".spec_bytes()
            + escaped(title.spec_bytes(), true)
            + "</h1><div class=\"source-actions\"><a class=\"source-back-link\" href=\"".spec_bytes()
            + escaped("/articles/".spec_bytes() + slug.spec_bytes() + ".html".spec_bytes(), true)
            + "\">\u{2190} Back to article</a>".spec_bytes(),
{
    push_str(
        out,
        "<article class=\"source-view\"><header class=\"source-header\"><h1 class=\"source-title\">Source: ",
    );
    push_escaped(out, title.as_bytes(), true);
    push_str(out, "</h1><div class=\"source-actions\"><a class=\"source-back-link\" href=\"");
    let mut href: Vec<u8> = Vec::new();
    push_str(&mut href, "/articles/");
    push_str(&mut href, slug);
    push_str(&mut href, ".html");
    push_escaped(out, href.as_slice(), true);
    push_str(out, "\">\u{2190} Back to article</a>");
    proof {
        assert(href@ =~= "/articles/".spec_bytes() + slug.spec_bytes() + ".html".spec_bytes());
    }
}

/// Renders the page that shows an article's Eure source, highlighted, with
/// numbered lines.
pub fn render_source_page(
    slug: &str,
    title: &str,
    source_content: &str,
    commit_hash: Option<&str>,
    highlighter: &CodeHighlighter,
) -> (r: String)
    ensures
        exists|g: Answers|
            answers_ok(g) && r@ == decode_utf8(
                page_html(
                    "Source: ".spec_bytes() + title.spec_bytes(),
                    #[trigger] source_html(
                        slug@,
                        title@,
                        source_content.spec_bytes(),
                        opt_view(commit_hash),
                        g,
                    ),
                ),
            ),
{
    let ghost commit = opt_view(commit_hash);
    let mut content: Vec<u8> = Vec::new();
    push_source_head(&mut content, slug, title);
    push_github_link(&mut content, commit_hash, slug, "source-github-link");
    push_str(&mut content, "</div></header><div class=\"source-content\">");
    let mut cache = HighlightCache::new();
    let block = eure_block_markup(source_content, true, Some(highlighter), &mut cache);
    let ghost g = cache.answers();
    proof {
        lemma_cache_answers(cache);
    }
    push_bytes(&mut content, block.as_slice());
    push_str(&mut content, "</div></article>");
    proof {
        assert(content@ =~= source_html(slug@, title@, source_content.spec_bytes(), commit, g));
    }
    let mut page_title: Vec<u8> = Vec::new();
    push_str(&mut page_title, "Source: ");
    push_str(&mut page_title, title);
    let mut out: Vec<u8> = Vec::new();
    push_str(
        &mut out,
        "<!DOCTYPE html><html lang=\"en\"><head><meta charset=\"utf-8\"><meta name=\"viewport\" content=\"width=device-width, initial-scale=1\"><title>",
    );
    push_escaped(&mut out, page_title.as_slice(), true);
    push_str(
        &mut out,
        " | Eure Blog</title><link rel=\"stylesheet\" href=\"/styles/main.css\"><link rel=\"stylesheet\" href=\"/styles/syntax.css\"><link rel=\"stylesheet\" href=\"/styles/eure-syntax.css\"></head><body><header class=\"site-header\"><nav class=\"site-nav\"><a class=\"site-title\" href=\"/\">Eure Blog</a></nav></header><main class=\"site-main\">",
    );
    push_bytes(&mut out, content.as_slice());
    push_str(
        &mut out,
        "</main><footer class=\"site-footer\"><p>Powered by Eure</p></footer></body></html>",
    );
    proof {
        assert(page_title@ =~= "Source: ".spec_bytes() + title.spec_bytes());
        assert(out@ =~= page_html(
            "Source: ".spec_bytes() + title.spec_bytes(),
            source_html(slug@, title@, source_content.spec_bytes(), commit, g),
        ));
        lemma_valid_parts();
        lemma_str_valid(source_content);
        lemma_eure_block_valid(source_content.spec_bytes(), true, true, g);
        assert(valid_utf8(github_link_html(commit, slug@, "source-github-link"@)));
        assert(valid_utf8(source_html(slug@, title@, source_content.spec_bytes(), commit, g)));
    }
    utf8_to_string(out.as_slice())
}

/// An article listed on the index page under its slug.
pub struct ArticleEntry<'a> {
    pub slug: &'a str,
    pub article: &'a Article,
}

/// Markup of one article in the index list.
pub open spec fn index_item_html(slug: Seq<char>, a: Article) -> Seq<u8> {
    index_link_html(slug, a.frontmatter.title.content@) + date_html(a.frontmatter.date) + tags_html(
        a.frontmatter.tags@,
    ) + "</li>".spec_bytes()
}

/// Start of an article's entry in the index list: the link with its title.
pub open spec fn index_link_html(slug: Seq<char>, title: Seq<char>) -> Seq<u8> {
    "<li class=\"article-list-item\"><a class=\"article-link\" href=\"".spec_bytes() + escaped(
        "/articles/".spec_bytes() + encode_utf8(slug) + ".html".spec_bytes(),
        true,
    ) + "\"><span class=\"article-title\">".spec_bytes() + escaped(encode_utf8(title), true)
        + "</span></a>".spec_bytes()
}

/// Markup of the articles of the index list, in order.
pub open spec fn index_items_html(es: Seq<ArticleEntry>) -> Seq<u8>
    decreases es.len(),
{
    if es.len() == 0 {
        Seq::empty()
    } else {
        index_items_html(es.drop_last()) + index_item_html(es.last().slug@, *es.last().article)
    }
}

/// Markup of the index page body.
pub open spec fn index_html(es: Seq<ArticleEntry>) -> Seq<u8> {
    "<div class=\"index-page\"><h1 class=\"page-title\">Articles</h1><ul class=\"article-list\">".spec_bytes()
        + index_items_html(es) + "</ul></div>".spec_bytes()
}

fn push_index_link(out: &mut Vec<u8>, slug: &str, title: &str)
    ensures
        final(out)@ == old(out)@ + index_link_html(slug@, title@),
{
    push_str(out, "<li class=\"article-list-item\"><a class=\"article-link\" href=\"");
    let mut href: Vec<u8> = Vec::new();
    push_str(&mut href, "/articles/");
    push_str(&mut href, slug);
    push_str(&mut href, ".html");
    push_escaped(out, href.as_slice(), true);
    push_str(out, "\"><span class=\"article-title\">");
    push_escaped(out, title.as_bytes(), true);
    push_str(out, "</span></a>");
    proof {
        assert(href@ =~= "/articles/".spec_bytes() + slug.spec_bytes() + ".html".spec_bytes());
        assert(final(out)@ =~= old(out)@ + index_link_html(slug@, title@));
    }
}

fn push_index_item(out: &mut Vec<u8>, entry: &ArticleEntry)
    ensures
        final(out)@ == old(out)@ + index_item_html(entry.slug@, *entry.article),
{
    let ghost a = *entry.article;
    push_index_link(out, entry.slug, entry.article.frontmatter.title.content.as_str());
    let ghost s1 = out@;
    push_date(out, &entry.article.frontmatter.date);
    let ghost s2 = out@;
    push_tags(out, &entry.article.frontmatter.tags);
    let ghost s3 = out@;
    push_str(out, "</li>");
    proof {
        assert(s2 == s1 + date_html(a.frontmatter.date));
        assert(s3 == s2 + tags_html(a.frontmatter.tags@));
        assert(final(out)@ =~= old(out)@ + index_item_html(entry.slug@, a));
    }
}

/// Renders the index page: every article with its title, date and tags.
pub fn render_index_page(articles: &[ArticleEntry]) -> (r: String)
    ensures
        r@ == decode_utf8(page_html("Home".spec_bytes(), index_html(articles@))),
{
    let mut content: Vec<u8> = Vec::new();
    push_str(
        &mut content,
        "<div class=\"index-page\"><h1 class=\"page-title\">Articles</h1><ul class=\"article-list\">",
    );
    let ghost start = content@;
    let mut i: usize = 0;
    while i < articles.len()
        invariant
            i <= articles@.len(),
            content@ == start + index_items_html(articles@.subrange(0, i as int)),
        decreases articles@.len() - i,
    {
        push_index_item(&mut content, &articles[i]);
        proof {
            assert(articles@.subrange(0, i + 1).drop_last() =~= articles@.subrange(0, i as int));
        }
        i += 1;
    }
    push_str(&mut content, "</ul></div>");
    proof {
        assert(articles@.subrange(0, articles@.len() as int) =~= articles@);
    }
    let page = layout_markup("Home", content.as_slice());
    proof {
        lemma_valid_parts();
        lemma_index_items_valid(articles@);
    }
    utf8_to_string(page.as_slice())
}

proof fn lemma_tag_spans_valid(tags: Seq<String>)
    ensures
        valid_utf8(tag_spans(tags)),
    decreases tags.len(),
{
    lemma_valid_parts();
    if tags.len() > 0 {
        lemma_tag_spans_valid(tags.drop_last());
    }
}

proof fn lemma_article_valid(a: Article, slug: Seq<char>, commit: Option<Seq<char>>, toc: Seq<TocView>, g: Answers)
    requires
        answers_ok(g),
    ensures
        article_html(a, slug, commit, toc, g) matches Some(h) ==> valid_utf8(h) && valid_utf8(
            page_html(encode_utf8(a.frontmatter.title.content@), h),
        ),
{
    lemma_valid_parts();
    lemma_text_valid(a.header, g);
    lemma_tag_spans_valid(a.frontmatter.tags@);
    lemma_items_valid(a.sections@, toc, g);
    assert(valid_utf8(links_html(slug, commit)));
    assert(valid_utf8(article_header_html(a, slug, commit, g)));
}

proof fn lemma_index_items_valid(es: Seq<ArticleEntry>)
    ensures
        valid_utf8(index_items_html(es)),
    decreases es.len(),
{
    lemma_valid_parts();
    if es.len() > 0 {
        lemma_index_items_valid(es.drop_last());
        lemma_tag_spans_valid(es.last().article.frontmatter.tags@);
        assert(valid_utf8(index_link_html(es.last().slug@, es.last().article.frontmatter.title.content@)));
    }
}

} // verus!
