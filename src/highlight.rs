//! Token highlighting of Eure text, with the fenced code regions inside it
//! highlighted in their own language and spliced into the token stream.
use vstd::prelude::*;
use vstd::string::*;
use vstd::utf8::*;

use crate::code_highlight::{
    answers_ok, lemma_agrees_prefix, lemma_cache_answers, lemma_extends_trans, Answers,
    CodeHighlighter, HighlightCache,
};
use crate::markup::{
    escaped, lemma_ascii_boundary, lemma_ascii_prefix_valid, lemma_escaped_valid, lemma_slice_valid,
    lemma_str_valid, lemma_unescaped_escaped, lemma_valid_parts, push_bytes, push_escaped_range,
    push_str, slice_ok, substr, unescaped, utf8_to_string, strip_from, strip_tags, lemma_strip_text,
    lemma_strip_tag, lemma_escaped_no_lt, lemma_ascii_lit_avoids, lemma_escaped_concat,
};
use crate::regions::{
    code_regions, find_code_block_for_range, find_code_block_regions, first_overlap,
    lemma_regions_from_facts, region_facts, region_wf, regions_wf, CodeBlockRegion, NEWLINE,
};

verus! {

broadcast use vstd::utf8::encode_utf8_decode_utf8;

/// The closed set of semantic token types of Eure.
#[derive(Debug, Clone, Copy, PartialEq, Eq, Structural)]
pub enum TokenType {
    Keyword,
    Number,
    Str,
    Comment,
    Operator,
    Property,
    Punctuation,
    Macro,
    Decorator,
    SectionMarker,
    ExtensionMarker,
    ExtensionIdent,
}

/// Modifier bit: a key being declared.
pub const MOD_DECLARATION: u32 = 1;

/// Modifier bit: a section header definition.
pub const MOD_DEFINITION: u32 = 2;

/// Modifier bit: inside a section header.
pub const MOD_SECTION_HEADER: u32 = 4;

/// A classified range of bytes: `length` bytes from `start`.
#[derive(Debug, Clone, Copy, PartialEq, Eq, Structural)]
pub struct Token {
    pub start: u32,
    pub length: u32,
    pub token_type: TokenType,
    pub modifiers: u32,
}

/// The token type with index `k` in Eure's numbering.
pub open spec fn token_type_at(k: u32) -> Option<TokenType> {
    if k == 0 {
        Some(TokenType::Keyword)
    } else if k == 1 {
        Some(TokenType::Number)
    } else if k == 2 {
        Some(TokenType::Str)
    } else if k == 3 {
        Some(TokenType::Comment)
    } else if k == 4 {
        Some(TokenType::Operator)
    } else if k == 5 {
        Some(TokenType::Property)
    } else if k == 6 {
        Some(TokenType::Punctuation)
    } else if k == 7 {
        Some(TokenType::Macro)
    } else if k == 8 {
        Some(TokenType::Decorator)
    } else if k == 9 {
        Some(TokenType::SectionMarker)
    } else if k == 10 {
        Some(TokenType::ExtensionMarker)
    } else if k == 11 {
        Some(TokenType::ExtensionIdent)
    } else {
        None
    }
}

/// The token type with index `k` in Eure's numbering, if there is one.
pub fn token_type_from_index(k: u32) -> (r: Option<TokenType>)
    ensures
        r == token_type_at(k),
{
    if k == 0 {
        Some(TokenType::Keyword)
    } else if k == 1 {
        Some(TokenType::Number)
    } else if k == 2 {
        Some(TokenType::Str)
    } else if k == 3 {
        Some(TokenType::Comment)
    } else if k == 4 {
        Some(TokenType::Operator)
    } else if k == 5 {
        Some(TokenType::Property)
    } else if k == 6 {
        Some(TokenType::Punctuation)
    } else if k == 7 {
        Some(TokenType::Macro)
    } else if k == 8 {
        Some(TokenType::Decorator)
    } else if k == 9 {
        Some(TokenType::SectionMarker)
    } else if k == 10 {
        Some(TokenType::ExtensionMarker)
    } else if k == 11 {
        Some(TokenType::ExtensionIdent)
    } else {
        None
    }
}

/// The CSS class of a token type.
pub open spec fn type_class(t: TokenType) -> Seq<char> {
    match t {
        TokenType::Keyword => "eure-keyword"@,
        TokenType::Number => "eure-number"@,
        TokenType::Str => "eure-string"@,
        TokenType::Comment => "eure-comment"@,
        TokenType::Operator => "eure-operator"@,
        TokenType::Property => "eure-property"@,
        TokenType::Punctuation => "eure-punctuation"@,
        TokenType::Macro => "eure-macro"@,
        TokenType::Decorator => "eure-decorator"@,
        TokenType::SectionMarker => "eure-section-marker"@,
        TokenType::ExtensionMarker => "eure-extension-marker"@,
        TokenType::ExtensionIdent => "eure-extension-ident"@,
    }
}

/// The CSS class of a token type.
pub fn token_type_class(t: TokenType) -> (r: &'static str)
    ensures
        r@ == type_class(t),
{
    match t {
        TokenType::Keyword => "eure-keyword",
        TokenType::Number => "eure-number",
        TokenType::Str => "eure-string",
        TokenType::Comment => "eure-comment",
        TokenType::Operator => "eure-operator",
        TokenType::Property => "eure-property",
        TokenType::Punctuation => "eure-punctuation",
        TokenType::Macro => "eure-macro",
        TokenType::Decorator => "eure-decorator",
        TokenType::SectionMarker => "eure-section-marker",
        TokenType::ExtensionMarker => "eure-extension-marker",
        TokenType::ExtensionIdent => "eure-extension-ident",
    }
}

/// The classes of a token, separated by spaces: its type's class, then one
/// class for each modifier bit that is set.
pub open spec fn classes_of(t: Token) -> Seq<u8> {
    encode_utf8(type_class(t.token_type)) + (if t.modifiers & MOD_DECLARATION != 0 {
        " eure-mod-declaration".spec_bytes()
    } else {
        Seq::empty()
    }) + (if t.modifiers & MOD_DEFINITION != 0 {
        " eure-mod-definition".spec_bytes()
    } else {
        Seq::empty()
    }) + (if t.modifiers & MOD_SECTION_HEADER != 0 {
        " eure-mod-section-header".spec_bytes()
    } else {
        Seq::empty()
    })
}

/// The classes of a token, separated by spaces.
pub fn build_classes(token: &Token) -> (r: Vec<u8>)
    ensures
        r@ == classes_of(*token),
{
    let mut out: Vec<u8> = Vec::new();
    push_str(&mut out, token_type_class(token.token_type));
    if token.modifiers & MOD_DECLARATION != 0 {
        push_str(&mut out, " eure-mod-declaration");
    }
    if token.modifiers & MOD_DEFINITION != 0 {
        push_str(&mut out, " eure-mod-definition");
    }
    if token.modifiers & MOD_SECTION_HEADER != 0 {
        push_str(&mut out, " eure-mod-section-header");
    }
    proof {
        assert(out@ =~= classes_of(*token));
    }
    out
}

/// The tokens that Eure's tolerant parser finds in `text`, as
/// (start, length, type index, modifier bits).
pub uninterp spec fn eure_semantic_tokens(text: Seq<char>) -> Seq<(u32, u32, u32, u32)>;

/// Relies on `eure::parol::parse_tolerant` and `eure::query::semantic_tokens`:
/// the tokens depend on the text alone.
#[verifier::external_body]
fn eure_raw_tokens(content: &str) -> (r: Vec<(u32, u32, u32, u32)>)
    ensures
        r@ == eure_semantic_tokens(content@),
{
    let cst = eure::parol::parse_tolerant(content, "").cst();
    eure::query::semantic_tokens(content, &cst).iter().map(
        |t| (t.start, t.length, t.token_type.index(), t.modifiers),
    ).collect()
}

/// The raw tokens whose type index is known, as tokens.
pub open spec fn known_tokens(raw: Seq<(u32, u32, u32, u32)>) -> Seq<Token>
    decreases raw.len(),
{
    if raw.len() == 0 {
        Seq::empty()
    } else {
        let t = raw.last();
        known_tokens(raw.drop_last()) + match token_type_at(t.2) {
            Some(k) => seq![Token { start: t.0, length: t.1, token_type: k, modifiers: t.3 }],
            None => Seq::empty(),
        }
    }
}

/// The tokens of an Eure text.
pub open spec fn eure_tokens(c: Seq<u8>) -> Seq<Token> {
    known_tokens(eure_semantic_tokens(decode_utf8(c)))
}

/// The tokens of an Eure text, in the order the parser gives them.
pub fn tokenize_eure(content: &str) -> (r: Vec<Token>)
    ensures
        r@ == eure_tokens(content.spec_bytes()),
{
    let raw = eure_raw_tokens(content);
    let mut out: Vec<Token> = Vec::new();
    let mut i: usize = 0;
    while i < raw.len()
        invariant
            i <= raw@.len(),
            out@ == known_tokens(raw@.subrange(0, i as int)),
        decreases raw@.len() - i,
    {
        let (s, l, k, m) = raw[i];
        proof {
            assert(raw@.subrange(0, i + 1).drop_last() =~= raw@.subrange(0, i as int));
        }
        match token_type_from_index(k) {
            Some(tt) => {
                out.push(Token { start: s, length: l, token_type: tt, modifiers: m });
                proof {
                    assert(out@ =~= known_tokens(raw@.subrange(0, i + 1)));
                }
            },
            None => {
                proof {
                    assert(out@ =~= known_tokens(raw@.subrange(0, i + 1)));
                }
            },
        }
        i += 1;
    }
    proof {
        assert(raw@.subrange(0, raw@.len() as int) =~= raw@);
        assert(content.spec_bytes() == encode_utf8(content@));
    }
    out
}

/// A piece of the text: the bytes `[start, end)`, covered by a token or a
/// gap between tokens.
pub struct Segment {
    pub start: int,
    pub end: int,
    pub token: Option<Token>,
}

/// The pieces that the text `c` is cut into by the tokens from index `i`
/// on, the previous piece ending at `last`. A token that starts before
/// `last`, runs past the end, or splits a character is passed over.
pub open spec fn segments_from(c: Seq<u8>, toks: Seq<Token>, i: int, last: int) -> Seq<Segment>
    decreases toks.len() - i,
{
    let len = c.len() as int;
    if i < 0 || i >= toks.len() {
        if last < len {
            seq![Segment { start: last, end: len, token: None }]
        } else {
            Seq::empty()
        }
    } else {
        let t = toks[i];
        let s = t.start as int;
        let e = s + t.length as int;
        if last <= s && e <= len && is_char_boundary(c, s) && is_char_boundary(c, e) {
            (if last < s {
                seq![Segment { start: last, end: s, token: None }]
            } else {
                Seq::empty()
            }) + seq![Segment { start: s, end: e, token: Some(t) }] + segments_from(
                c,
                toks,
                i + 1,
                e,
            )
        } else {
            segments_from(c, toks, i + 1, last)
        }
    }
}

/// The pieces that the text `c` is cut into by `toks`.
pub open spec fn segments(c: Seq<u8>, toks: Seq<Token>) -> Seq<Segment> {
    segments_from(c, toks, 0, 0)
}

/// Markup of a token covering `c[s..e]`.
pub open spec fn token_html(c: Seq<u8>, s: int, e: int, t: Token) -> Seq<u8> {
    "<span class=\"".spec_bytes() + classes_of(t) + "\">".spec_bytes() + escaped(
        c.subrange(s, e),
        false,
    ) + "</span>".spec_bytes()
}

/// First newline in `c[a..b]`, or `b`.
pub open spec fn next_newline(c: Seq<u8>, a: int, b: int) -> int
    decreases b - a,
{
    if a < b && 0 <= a < c.len() && c[a] != NEWLINE {
        next_newline(c, a + 1, b)
    } else {
        a
    }
}

/// Markup of one line `c[a..b]` of code in the language `lang`: the markup
/// of giallo's runs as `g` gives it, where giallo could highlight it, else
/// the escaped text.
pub open spec fn line_part_html(c: Seq<u8>, a: int, b: int, lang: Seq<char>, g: Answers) -> Seq<u8> {
    if slice_ok(c, a, b) {
        match g(false, decode_utf8(c.subrange(a, b)), lang) {
            Some(h) => h,
            None => escaped(c.subrange(a, b), false),
        }
    } else {
        escaped(c.subrange(a, b), false)
    }
}

/// Markup of the code `c[a..b]`, line by line, with each newline kept.
pub open spec fn lines_html(c: Seq<u8>, a: int, b: int, lang: Seq<char>, g: Answers) -> Seq<u8>
    decreases b - a,
{
    let k = next_newline(c, a, b);
    if a <= k && k < b {
        line_part_html(c, a, k, lang, g) + seq![NEWLINE] + lines_html(c, k + 1, b, lang, g)
    } else {
        line_part_html(c, a, b, lang, g)
    }
}

/// The language tag of a region.
pub open spec fn region_lang(c: Seq<u8>, r: CodeBlockRegion) -> Seq<u8> {
    c.subrange(r.lang_start as int, r.lang_end as int)
}

/// Start of the part of region `r` inside a gap from `a`.
pub open spec fn cut_start(r: CodeBlockRegion, a: int) -> int {
    if r.content_start as int > a {
        r.content_start as int
    } else {
        a
    }
}

/// End of the part of region `r` inside a gap up to `b`.
pub open spec fn cut_end(r: CodeBlockRegion, b: int) -> int {
    if (r.content_end as int) < b {
        r.content_end as int
    } else {
        b
    }
}

/// A region is highlighted: a highlighter is there and the region's tag
/// is a non-empty piece of text.
pub open spec fn highlights(c: Seq<u8>, r: CodeBlockRegion, hl: bool) -> bool {
    hl && r.lang_start < r.lang_end && slice_ok(c, r.lang_start as int, r.lang_end as int)
}

/// Markup of all of `c` as Eure: its tokens with the gaps between them,
/// fenced regions in the gaps highlighted in their own language.
pub open spec fn compose(c: Seq<u8>, hl: bool, g: Answers) -> Seq<u8>
    decreases c.len(), 2int, 0int,
{
    segments_html(
        c,
        segments(c, eure_tokens(c)),
        code_regions(c),
        hl,
    g,
    )
}

/// Markup of a sequence of pieces of `c`.
pub open spec fn segments_html(
    c: Seq<u8>,
    segs: Seq<Segment>,
    rs: Seq<CodeBlockRegion>,
    hl: bool,
    g: Answers,
) -> Seq<u8>
    decreases c.len(), 1int, segs.len() as int,
{
    if segs.len() == 0 {
        Seq::empty()
    } else {
        let sg = segs.last();
        segments_html(c, segs.drop_last(), rs, hl, g) + match sg.token {
            Some(t) => token_html(c, sg.start, sg.end, t),
            None => gap_html(c, sg.start, sg.end, rs, hl, g),
        }
    }
}

/// Markup of the gap `c[a..b]` between tokens. Where it overlaps a region
/// to be highlighted, the overlap is highlighted: as Eure, with this whole
/// process on it, if the tag is `eure`, else line by line with giallo; the
/// rest of the gap is escaped.
pub open spec fn gap_html(c: Seq<u8>, a: int, b: int, rs: Seq<CodeBlockRegion>, hl: bool, g: Answers) -> Seq<
    u8,
>
    decreases c.len(), 0int, 0int,
{
    match first_overlap(rs, a, b) {
        Some(r) => {
            let s = cut_start(r, a);
            let e = cut_end(r, b);
            if highlights(c, r, hl) && 0 < s && a <= s && s <= e && e <= b && b <= c.len()
                && is_char_boundary(c, s) && is_char_boundary(c, e) {
                escaped(c.subrange(a, s), false) + (if region_lang(c, r) == "eure".spec_bytes() {
                    if slice_ok(c, s, e) {
                        compose(c.subrange(s, e), hl, g)
                    } else {
                        escaped(c.subrange(s, e), false)
                    }
                } else {
                    lines_html(c, s, e, decode_utf8(region_lang(c, r)), g)
                }) + escaped(c.subrange(e, b), false)
            } else {
                escaped(c.subrange(a, b), false)
            }
        },
        None => escaped(c.subrange(a, b), false),
    }
}

/// Appends the markup of the code `content[a..b]`, line by line, to `out`,
/// asking giallo through `cache`.
fn push_lines(
    out: &mut Vec<u8>,
    content: &str,
    a: usize,
    b: usize,
    lang: &str,
    h: &CodeHighlighter,
    cache: &mut HighlightCache,
)
    requires
        a <= b <= content.spec_bytes().len(),
        old(cache).wf(),
    ensures
        final(cache).wf(),
        final(cache).extends(*old(cache)),
        forall|g: Answers|
            #[trigger] final(cache).agrees(g) ==> final(out)@ == old(out)@ + lines_html(
                content.spec_bytes(),
                a as int,
                b as int,
                lang@,
                g,
            ),
{
    let bytes = content.as_bytes();
    let ghost c = content.spec_bytes();
    let ghost cache0 = *cache;
    let ghost out0 = out@;
    let mut ls: usize = a;
    let mut k: usize = a;
    assert forall|j: int| 0 <= j < cache0.entries@.len() implies #[trigger] cache.entries@[j]
        == cache0.entries@[j] by {}
    while k < b
        invariant
            a <= ls <= k <= b <= c.len(),
            c == content.spec_bytes(),
            bytes@ == c,
            out0 == old(out)@,
            cache0 == *old(cache),
            cache.wf(),
            cache.extends(cache0),
            forall|g: Answers|
                #[trigger] cache.agrees(g) ==> out0 + lines_html(c, a as int, b as int, lang@, g)
                    == out@ + lines_html(c, ls as int, b as int, lang@, g),
            next_newline(c, ls as int, b as int) == next_newline(c, k as int, b as int),
        decreases b - k,
    {
        if bytes[k] == NEWLINE {
            let ghost before = out@;
            let ghost cb = *cache;
            push_line(out, content, ls, k, lang, h, cache);
            out.push(NEWLINE);
            proof {
                lemma_extends_trans(cache0, cb, *cache);
                assert forall|g: Answers| #[trigger] cache.agrees(g) implies out0 + lines_html(
                    c,
                    a as int,
                    b as int,
                    lang@,
                    g,
                ) == out@ + lines_html(c, k + 1, b as int, lang@, g) by {
                    lemma_agrees_prefix(*cache, cb, g);
                    assert(cb.agrees(g));
                    assert(lines_html(c, ls as int, b as int, lang@, g) == line_part_html(
                        c,
                        ls as int,
                        k as int,
                        lang@,
                        g,
                    ) + seq![NEWLINE] + lines_html(c, k + 1, b as int, lang@, g));
                }
            }
            ls = k + 1;
        }
        k += 1;
    }
    let ghost cb = *cache;
    let ghost before = out@;
    push_line(out, content, ls, b, lang, h, cache);
    proof {
        lemma_extends_trans(cache0, cb, *cache);
        assert forall|g: Answers| #[trigger] cache.agrees(g) implies out@ == out0 + lines_html(
            c,
            a as int,
            b as int,
            lang@,
            g,
        ) by {
            lemma_agrees_prefix(*cache, cb, g);
            assert(cb.agrees(g));
            assert(next_newline(c, ls as int, b as int) == b);
        }
    }
}

/// Appends the markup of one line `content[a..b]` to `out`.
fn push_line(
    out: &mut Vec<u8>,
    content: &str,
    a: usize,
    b: usize,
    lang: &str,
    h: &CodeHighlighter,
    cache: &mut HighlightCache,
)
    requires
        a <= b <= content.spec_bytes().len(),
        old(cache).wf(),
    ensures
        final(cache).wf(),
        final(cache).extends(*old(cache)),
        forall|g: Answers|
            #[trigger] final(cache).agrees(g) ==> final(out)@ == old(out)@ + line_part_html(
                content.spec_bytes(),
                a as int,
                b as int,
                lang@,
                g,
            ),
{
    let bytes = content.as_bytes();
    assert forall|j: int| 0 <= j < cache.entries@.len() implies #[trigger] cache.entries@[j]
        == cache.entries@[j] by {}
    match substr(content, a, b) {
        Some(line) => {
            proof {
                assert(decode_utf8(content.spec_bytes().subrange(a as int, b as int)) == line@);
            }
            let ans = cache.answer(h, false, line, lang);
            match ans {
                Some(m) => push_str(out, m.as_str()),
                None => push_escaped_range(out, bytes, a, b, false),
            }
        },
        None => push_escaped_range(out, bytes, a, b, false),
    }
}

/// Appends the markup of the gap `content[a..b]` between tokens to `out`.
fn push_gap(
    out: &mut Vec<u8>,
    content: &str,
    a: usize,
    b: usize,
    regions: &[CodeBlockRegion],
    highlighter: Option<&CodeHighlighter>,
    cache: &mut HighlightCache,
)
    requires
        a <= b <= content.spec_bytes().len(),
        regions_wf(regions@, content.spec_bytes().len() as int),
        old(cache).wf(),
    ensures
        final(cache).wf(),
        final(cache).extends(*old(cache)),
        forall|g: Answers|
            #[trigger] final(cache).agrees(g) ==> final(out)@ == old(out)@ + gap_html(
                content.spec_bytes(),
                a as int,
                b as int,
                regions@,
                highlighter is Some,
                g,
            ),
    decreases content.spec_bytes().len(), 0int, 0int,
{
    let bytes = content.as_bytes();
    let ghost c = content.spec_bytes();
    let ghost hl = highlighter is Some;
    assert forall|j: int| 0 <= j < cache.entries@.len() implies #[trigger] cache.entries@[j]
        == cache.entries@[j] by {}
    match find_code_block_for_range(a, b, regions) {
        Some(r) => {
            proof {
                lemma_first_overlap_in(regions@, a as int, b as int);
            }
            let s = if r.content_start > a {
                r.content_start
            } else {
                a
            };
            let e = if r.content_end < b {
                r.content_end
            } else {
                b
            };
            if r.lang_start < r.lang_end && highlighter.is_some() && content.is_char_boundary(s)
                && content.is_char_boundary(e) {
                match (substr(content, r.lang_start, r.lang_end), highlighter) {
                    (Some(lang), Some(h)) => {
                        push_escaped_range(out, bytes, a, s, false);
                        let ghost mid = out@;
                        let is_eure = bytes_equal(&bytes, r.lang_start, r.lang_end, "eure");
                        if is_eure {
                            match substr(content, s, e) {
                                Some(sub) => {
                                    let inner = render_eure_tokens_only(sub, highlighter, cache);
                                    push_bytes(out, inner.as_slice());
                                },
                                None => push_escaped_range(out, bytes, s, e, false),
                            }
                        } else {
                            proof {
                                assert(lang@ == decode_utf8(region_lang(c, r)));
                            }
                            push_lines(out, content, s, e, lang, h, cache);
                        }
                        push_escaped_range(out, bytes, e, b, false);
                    },
                    _ => push_escaped_range(out, bytes, a, b, false),
                }
            } else {
                push_escaped_range(out, bytes, a, b, false);
            }
        },
        None => push_escaped_range(out, bytes, a, b, false),
    }
}

/// The region that `first_overlap` picks is one of the regions.
proof fn lemma_first_overlap_in(rs: Seq<CodeBlockRegion>, a: int, b: int)
    ensures
        first_overlap(rs, a, b) matches Some(r) ==> rs.contains(r) && a < r.content_end && b
            > r.content_start,
    decreases rs.len(),
{
    if rs.len() > 0 && !(a < rs[0].content_end && b > rs[0].content_start) {
        lemma_first_overlap_in(rs.drop_first(), a, b);
        if first_overlap(rs, a, b) is Some {
            let r = first_overlap(rs, a, b)->0;
            let k = choose|k: int| 0 <= k < rs.drop_first().len() && rs.drop_first()[k] == r;
            assert(rs[k + 1] == r);
        }
    } else if rs.len() > 0 {
        assert(rs[0] == rs[0]);
    }
}

/// Whether `b[start..end]` holds exactly the bytes of `word`.
fn bytes_equal(b: &[u8], start: usize, end: usize, word: &str) -> (r: bool)
    requires
        start <= end <= b@.len(),
    ensures
        r == (b@.subrange(start as int, end as int) == word.spec_bytes()),
{
    let w = word.as_bytes();
    if end - start != w.len() {
        assert(b@.subrange(start as int, end as int).len() != w@.len());
        return false;
    }
    let mut k: usize = 0;
    while k < w.len()
        invariant
            k <= w@.len(),
            w@ == word.spec_bytes(),
            end - start == w@.len(),
            start <= end <= b@.len(),
            forall|m: int| 0 <= m < k ==> b@[start + m] == w@[m],
        decreases w@.len() - k,
    {
        if b[start + k] != w[k] {
            assert(b@.subrange(start as int, end as int)[k as int] == b@[start + k]);
            assert(b@.subrange(start as int, end as int)[k as int] != w@[k as int]);
            return false;
        }
        k += 1;
    }
    assert(b@.subrange(start as int, end as int) =~= w@);
    true
}

/// Appends the markup of a token covering `content[s..e]` to `out`.
fn push_token(out: &mut Vec<u8>, bytes: &[u8], s: usize, e: usize, t: &Token)
    requires
        s <= e <= bytes@.len(),
    ensures
        final(out)@ == old(out)@ + token_html(bytes@, s as int, e as int, *t),
{
    push_str(out, "<span class=\"");
    let classes = build_classes(t);
    push_bytes(out, classes.as_slice());
    push_str(out, "\">");
    push_escaped_range(out, bytes, s, e, false);
    push_str(out, "</span>");
    proof {
        assert(final(out)@ =~= old(out)@ + token_html(bytes@, s as int, e as int, *t));
    }
}

/// Appends the markup of `content` cut by `tokens` to `out`: each token
/// as a classed span, each gap between tokens as `gap_html` gives it.
fn push_tokens(
    out: &mut Vec<u8>,
    content: &str,
    tokens: &[Token],
    code_blocks: &[CodeBlockRegion],
    highlighter: Option<&CodeHighlighter>,
    cache: &mut HighlightCache,
)
    requires
        regions_wf(code_blocks@, content.spec_bytes().len() as int),
        old(cache).wf(),
    ensures
        final(cache).wf(),
        final(cache).extends(*old(cache)),
        forall|g: Answers|
            #[trigger] final(cache).agrees(g) ==> final(out)@ == old(out)@ + segments_html(
                content.spec_bytes(),
                segments(content.spec_bytes(), tokens@),
                code_blocks@,
                highlighter is Some,
                g,
            ),
    decreases content.spec_bytes().len(), 1int, 0int,
{
    let bytes = content.as_bytes();
    let ghost c = content.spec_bytes();
    let ghost hl = highlighter is Some;
    let ghost rs = code_blocks@;
    let ghost cache0 = *cache;
    let ghost out0 = out@;
    let len = bytes.len();
    let ghost ilen = len as int;
    let mut last: usize = 0;
    let ghost mut done: Seq<Segment> = Seq::empty();
    let mut i: usize = 0;
    assert forall|j: int| 0 <= j < cache0.entries@.len() implies #[trigger] cache.entries@[j]
        == cache0.entries@[j] by {}
    while i < tokens.len()
        invariant
            i <= tokens@.len(),
            last <= len,
            c == content.spec_bytes(),
            bytes@ == c,
            len == c.len(),
            ilen == len,
            rs == code_blocks@,
            hl == highlighter is Some,
            regions_wf(rs, ilen),
            out0 == old(out)@,
            cache0 == *old(cache),
            cache.wf(),
            cache.extends(cache0),
            segments(c, tokens@) == done + segments_from(c, tokens@, i as int, last as int),
            forall|g: Answers|
                #[trigger] cache.agrees(g) ==> out@ == out0 + segments_html(c, done, rs, hl, g),
        decreases tokens@.len() - i,
    {
        let t = tokens[i];
        let start = t.start as usize;
        if start >= last && start <= len && (t.length as usize) <= len - start
            && content.is_char_boundary(start) && content.is_char_boundary(
            start + t.length as usize,
        ) {
            let end = start + t.length as usize;
            proof {
                assert(segments_from(c, tokens@, i as int, last as int) == (if last < start {
                    seq![Segment { start: last as int, end: start as int, token: None }]
                } else {
                    Seq::empty()
                }) + seq![Segment { start: start as int, end: end as int, token: Some(t) }]
                    + segments_from(c, tokens@, i + 1, end as int));
            }
            if start > last {
                let ghost cb = *cache;
                let ghost before = out@;
                push_gap(out, content, last, start, code_blocks, highlighter, cache);
                proof {
                    lemma_extends_trans(cache0, cb, *cache);
                    let sg = Segment { start: last as int, end: start as int, token: None };
                    assert((done.push(sg)).drop_last() =~= done);
                    assert forall|g: Answers| #[trigger] cache.agrees(g) implies out@ == out0
                        + segments_html(c, done.push(sg), rs, hl, g) by {
                        lemma_agrees_prefix(*cache, cb, g);
                        assert(cb.agrees(g));
                        assert(segments_html(c, done.push(sg), rs, hl, g) == segments_html(
                            c,
                            done,
                            rs,
                            hl,
                            g,
                        ) + gap_html(c, last as int, start as int, rs, hl, g));
                    }
                    done = done.push(sg);
                }
            }
            let ghost before = out@;
            push_token(out, bytes, start, end, &t);
            proof {
                let sg = Segment { start: start as int, end: end as int, token: Some(t) };
                assert((done.push(sg)).drop_last() =~= done);
                assert forall|g: Answers| #[trigger] cache.agrees(g) implies out@ == out0
                    + segments_html(c, done.push(sg), rs, hl, g) by {
                    assert(segments_html(c, done.push(sg), rs, hl, g) == segments_html(
                        c,
                        done,
                        rs,
                        hl,
                        g,
                    ) + token_html(c, start as int, end as int, t));
                }
                done = done.push(sg);
                assert(segments(c, tokens@) =~= done + segments_from(
                    c,
                    tokens@,
                    i + 1,
                    end as int,
                ));
            }
            last = end;
        }
        i += 1;
    }
    if last < len {
        let ghost cb = *cache;
        push_gap(out, content, last, len, code_blocks, highlighter, cache);
        proof {
            lemma_extends_trans(cache0, cb, *cache);
            let sg = Segment { start: last as int, end: ilen, token: None };
            assert((done.push(sg)).drop_last() =~= done);
            assert forall|g: Answers| #[trigger] cache.agrees(g) implies out@ == out0
                + segments_html(c, done.push(sg), rs, hl, g) by {
                lemma_agrees_prefix(*cache, cb, g);
                assert(cb.agrees(g));
                assert(segments_html(c, done.push(sg), rs, hl, g) == segments_html(
                    c,
                    done,
                    rs,
                    hl,
                    g,
                ) + gap_html(c, last as int, ilen, rs, hl, g));
            }
            done = done.push(sg);
        }
    }
    proof {
        assert(segments(c, tokens@) =~= done);
    }
}

/// Markup of Eure text without a wrapper: its tokens, and the fenced
/// regions between them highlighted in their own language.
pub fn render_eure_tokens_only(
    content: &str,
    highlighter: Option<&CodeHighlighter>,
    cache: &mut HighlightCache,
) -> (r: Vec<u8>)
    requires
        old(cache).wf(),
    ensures
        final(cache).wf(),
        final(cache).extends(*old(cache)),
        forall|g: Answers|
            #[trigger] final(cache).agrees(g) ==> r@ == compose(
                content.spec_bytes(),
                highlighter is Some,
                g,
            ),
    decreases content.spec_bytes().len(), 2int, 0int,
{
    let tokens = tokenize_eure(content);
    let regions = find_code_block_regions(content);
    let mut out: Vec<u8> = Vec::new();
    push_tokens(&mut out, content, tokens.as_slice(), regions.as_slice(), highlighter, cache);
    out
}

/// Markup of `content` cut by `tokens`, gaps rendered as `gap_html` gives them.
pub fn render_tokens_to_string(
    content: &str,
    tokens: &[Token],
    code_blocks: &[CodeBlockRegion],
    highlighter: Option<&CodeHighlighter>,
    cache: &mut HighlightCache,
) -> (r: Vec<u8>)
    requires
        regions_wf(code_blocks@, content.spec_bytes().len() as int),
        old(cache).wf(),
    ensures
        final(cache).wf(),
        final(cache).extends(*old(cache)),
        forall|g: Answers|
            #[trigger] final(cache).agrees(g) ==> r@ == segments_html(
                content.spec_bytes(),
                segments(content.spec_bytes(), tokens@),
                code_blocks@,
                highlighter is Some,
                g,
            ),
{
    let mut out: Vec<u8> = Vec::new();
    push_tokens(&mut out, content, tokens, code_blocks, highlighter, cache);
    out
}

/// One line wrapped in its own container, for numbering by CSS.
pub open spec fn wrap_line(l: Seq<u8>) -> Seq<u8> {
    "<span class=\"line\">".spec_bytes() + l + "</span>".spec_bytes()
}

/// The lines of `h` from position `a` on, split at newlines, each wrapped
/// by `wrap_line`; the newlines themselves are dropped.
pub open spec fn wrapped_lines(h: Seq<u8>, a: int) -> Seq<u8>
    decreases h.len() - a,
{
    let k = next_newline(h, a, h.len() as int);
    if a <= k && k < h.len() {
        wrap_line(h.subrange(a, k)) + wrapped_lines(h, k + 1)
    } else {
        wrap_line(h.subrange(a, h.len() as int))
    }
}

fn push_wrapped_line(out: &mut Vec<u8>, h: &[u8], a: usize, b: usize)
    requires
        a <= b <= h@.len(),
    ensures
        final(out)@ == old(out)@ + wrap_line(h@.subrange(a as int, b as int)),
{
    push_str(out, "<span class=\"line\">");
    let mut i: usize = a;
    while i < b
        invariant
            a <= i <= b <= h@.len(),
            out@ == old(out)@ + "<span class=\"line\">".spec_bytes() + h@.subrange(
                a as int,
                i as int,
            ),
        decreases b - i,
    {
        out.push(h[i]);
        assert(h@.subrange(a as int, i + 1) =~= h@.subrange(a as int, i as int).push(h@[i as int]));
        i += 1;
    }
    push_str(out, "</span>");
}

/// Wraps each line of the markup `h` in a per-line container.
pub fn render_tokens_by_line(h: &[u8]) -> (r: Vec<u8>)
    ensures
        r@ == wrapped_lines(h@, 0),
{
    let mut out: Vec<u8> = Vec::new();
    let len = h.len();
    let mut ls: usize = 0;
    let mut k: usize = 0;
    while k < len
        invariant
            ls <= k <= len,
            len == h@.len(),
            wrapped_lines(h@, 0) == out@ + wrapped_lines(h@, ls as int),
            next_newline(h@, ls as int, len as int) == next_newline(h@, k as int, len as int),
        decreases len - k,
    {
        if h[k] == NEWLINE {
            let ghost before = out@;
            push_wrapped_line(&mut out, h, ls, k);
            assert(out@ == before + wrap_line(h@.subrange(ls as int, k as int)));
            ls = k + 1;
        }
        k += 1;
    }
    push_wrapped_line(&mut out, h, ls, len);
    out
}

/// Opening of a plain Eure block.
pub open spec fn block_open() -> Seq<u8> {
    "<pre class=\"code-block\"><code>".spec_bytes()
}

/// Opening of a line-numbered Eure block.
pub open spec fn numbered_open() -> Seq<u8> {
    "<pre class=\"eure-source eure-source-with-lines\"><code>".spec_bytes()
}

/// Closing of an Eure block.
pub open spec fn block_close() -> Seq<u8> {
    "</code></pre>".spec_bytes()
}

/// Markup of an Eure text as a block: plain, or with each line wrapped for
/// numbering.
pub open spec fn eure_block(c: Seq<u8>, with_line_numbers: bool, hl: bool, g: Answers) -> Seq<u8> {
    if with_line_numbers {
        numbered_open() + wrapped_lines(compose(c, hl, g), 0) + block_close()
    } else {
        block_open() + compose(c, hl, g) + block_close()
    }
}

/// Markup bytes of an Eure text as a block.
pub fn eure_block_markup(
    content: &str,
    with_line_numbers: bool,
    highlighter: Option<&CodeHighlighter>,
    cache: &mut HighlightCache,
) -> (r: Vec<u8>)
    requires
        old(cache).wf(),
    ensures
        final(cache).wf(),
        final(cache).extends(*old(cache)),
        forall|g: Answers|
            #[trigger] final(cache).agrees(g) ==> r@ == eure_block(
                content.spec_bytes(),
                with_line_numbers,
                highlighter is Some,
                g,
            ),
{
    let inner = render_eure_tokens_only(content, highlighter, cache);
    let mut out: Vec<u8> = Vec::new();
    if with_line_numbers {
        push_str(&mut out, "<pre class=\"eure-source eure-source-with-lines\"><code>");
        let lines = render_tokens_by_line(inner.as_slice());
        push_bytes(&mut out, lines.as_slice());
    } else {
        push_str(&mut out, "<pre class=\"code-block\"><code>");
        push_bytes(&mut out, inner.as_slice());
    }
    push_str(&mut out, "</code></pre>");
    out
}

fn render_eure_highlighted_inner(
    content: &str,
    with_line_numbers: bool,
    highlighter: Option<&CodeHighlighter>,
) -> (r: String)
    ensures
        exists|g: Answers|
            answers_ok(g) && r@ == decode_utf8(
                #[trigger] eure_block(content.spec_bytes(), with_line_numbers, highlighter is Some, g),
            ),
{
    let mut cache = HighlightCache::new();
    let out = eure_block_markup(content, with_line_numbers, highlighter, &mut cache);
    proof {
        let g = cache.answers();
        lemma_cache_answers(cache);
        lemma_str_valid(content);
        lemma_eure_block_valid(content.spec_bytes(), with_line_numbers, highlighter is Some, g);
    }
    utf8_to_string(out.as_slice())
}

/// Highlights Eure text as a block.
pub fn render_eure_highlighted(content: &str, highlighter: Option<&CodeHighlighter>) -> (r: String)
    ensures
        exists|g: Answers|
            answers_ok(g) && r@ == decode_utf8(
                #[trigger] eure_block(content.spec_bytes(), false, highlighter is Some, g),
            ),
{
    render_eure_highlighted_inner(content, false, highlighter)
}

/// Highlights Eure text as a block with one numbered container per line.
pub fn render_eure_highlighted_with_line_numbers(
    content: &str,
    highlighter: Option<&CodeHighlighter>,
) -> (r: String)
    ensures
        exists|g: Answers|
            answers_ok(g) && r@ == decode_utf8(
                #[trigger] eure_block(content.spec_bytes(), true, highlighter is Some, g),
            ),
{
    render_eure_highlighted_inner(content, true, highlighter)
}


/// The text under a sequence of pieces of `c`, one piece after the other.
pub open spec fn segments_text(c: Seq<u8>, segs: Seq<Segment>) -> Seq<u8>
    decreases segs.len(),
{
    if segs.len() == 0 {
        Seq::empty()
    } else {
        segments_text(c, segs.drop_last()) + c.subrange(segs.last().start, segs.last().end)
    }
}

proof fn lemma_segments_text_concat(c: Seq<u8>, x: Seq<Segment>, y: Seq<Segment>)
    ensures
        segments_text(c, x + y) == segments_text(c, x) + segments_text(c, y),
    decreases y.len(),
{
    if y.len() == 0 {
        assert(x + y =~= x);
        assert(segments_text(c, x) + segments_text(c, y) =~= segments_text(c, x));
    } else {
        assert((x + y).drop_last() =~= x + y.drop_last());
        lemma_segments_text_concat(c, x, y.drop_last());
        assert(segments_text(c, x + y) =~= segments_text(c, x) + segments_text(c, y));
    }
}

proof fn lemma_segments_from_cover(c: Seq<u8>, toks: Seq<Token>, i: int, last: int)
    requires
        0 <= i,
        0 <= last <= c.len(),
    ensures
        segments_text(c, segments_from(c, toks, i, last)) == c.subrange(
            last,
            c.len() as int,
        ),
    decreases toks.len() - i,
{
    let len = c.len() as int;
    if i >= toks.len() {
        if last < len {
            let g = Segment { start: last, end: len, token: None };
            assert(seq![g].drop_last() =~= Seq::<Segment>::empty());
            assert(segments_text(c, Seq::<Segment>::empty()) == Seq::<u8>::empty());
            assert(segments_text(c, seq![g]) =~= c.subrange(last, len));
        } else {
            assert(c.subrange(last, len) =~= Seq::<u8>::empty());
        }
    } else {
        let t = toks[i];
        let s = t.start as int;
        let e = s + t.length as int;
        if last <= s && e <= len && is_char_boundary(c, s) && is_char_boundary(c, e) {
            let gap: Seq<Segment> = if last < s {
                seq![Segment { start: last, end: s, token: None }]
            } else {
                Seq::empty()
            };
            let tok = seq![Segment { start: s, end: e, token: Some(t) }];
            let rest = segments_from(c, toks, i + 1, e);
            lemma_segments_from_cover(c, toks, i + 1, e);
            lemma_segments_text_concat(c, gap + tok, rest);
            lemma_segments_text_concat(c, gap, tok);
            assert(tok.drop_last() =~= Seq::<Segment>::empty());
            if last < s {
                assert(gap.drop_last() =~= Seq::<Segment>::empty());
                assert(segments_text(c, Seq::<Segment>::empty()) == Seq::<u8>::empty());
                assert(segments_text(c, gap) =~= c.subrange(last, s));
            } else {
                assert(c.subrange(last, s) =~= Seq::<u8>::empty());
            }
            assert(c.subrange(last, s) + c.subrange(s, e) + c.subrange(e, len) =~= c.subrange(
                last,
                len,
            ));
        } else {
            lemma_segments_from_cover(c, toks, i + 1, last);
        }
    }
}

/// The pieces that any token stream cuts a text into follow one another
/// without gap or overlap and cover it exactly: their texts, put together
/// in order, give back the whole text, byte for byte. Each piece's markup
/// holds its text escaped (`token_html`, `gap_html`).
pub proof fn lemma_segments_cover(c: Seq<u8>, toks: Seq<Token>)
    ensures
        segments_text(c, segments(c, toks)) == c,
{
    lemma_segments_from_cover(c, toks, 0, 0);
    assert(c.subrange(0, c.len() as int) =~= c);
}

/// The escaped texts of a sequence of pieces of `c`, each decoded, one
/// after the other.
pub open spec fn segments_decoded(c: Seq<u8>, segs: Seq<Segment>) -> Seq<u8>
    decreases segs.len(),
{
    if segs.len() == 0 {
        Seq::empty()
    } else {
        segments_decoded(c, segs.drop_last()) + unescaped(
            escaped(c.subrange(segs.last().start, segs.last().end), false),
        )
    }
}

proof fn lemma_decoded_is_text(c: Seq<u8>, segs: Seq<Segment>)
    ensures
        segments_decoded(c, segs) == segments_text(c, segs),
    decreases segs.len(),
{
    if segs.len() > 0 {
        lemma_decoded_is_text(c, segs.drop_last());
        lemma_unescaped_escaped(c.subrange(segs.last().start, segs.last().end), false);
    }
}

/// For any token stream, the text that the pieces' markup escapes (the
/// token text inside each span and the text of each gap), decoded and put
/// together in order, is the input byte for byte.
pub proof fn lemma_segments_round_trip(c: Seq<u8>, toks: Seq<Token>)
    ensures
        segments_decoded(c, segments(c, toks)) == c,
{
    lemma_segments_cover(c, toks);
    lemma_decoded_is_text(c, segments(c, toks));
}

/// No `>` in a token's classes.
proof fn lemma_classes_no_gt(t: Token)
    ensures
        forall|i: int| 0 <= i < classes_of(t).len() ==> classes_of(t)[i] != 62u8,
{
    match t.token_type {
        TokenType::Keyword => {
            reveal_strlit("eure-keyword");
            assert(is_ascii("eure-keyword"));
            lemma_ascii_lit_avoids("eure-keyword", 62u8);
            assert(encode_utf8(type_class(t.token_type)) == "eure-keyword".spec_bytes());
        },
        TokenType::Number => {
            reveal_strlit("eure-number");
            assert(is_ascii("eure-number"));
            lemma_ascii_lit_avoids("eure-number", 62u8);
            assert(encode_utf8(type_class(t.token_type)) == "eure-number".spec_bytes());
        },
        TokenType::Str => {
            reveal_strlit("eure-string");
            assert(is_ascii("eure-string"));
            lemma_ascii_lit_avoids("eure-string", 62u8);
            assert(encode_utf8(type_class(t.token_type)) == "eure-string".spec_bytes());
        },
        TokenType::Comment => {
            reveal_strlit("eure-comment");
            assert(is_ascii("eure-comment"));
            lemma_ascii_lit_avoids("eure-comment", 62u8);
            assert(encode_utf8(type_class(t.token_type)) == "eure-comment".spec_bytes());
        },
        TokenType::Operator => {
            reveal_strlit("eure-operator");
            assert(is_ascii("eure-operator"));
            lemma_ascii_lit_avoids("eure-operator", 62u8);
            assert(encode_utf8(type_class(t.token_type)) == "eure-operator".spec_bytes());
        },
        TokenType::Property => {
            reveal_strlit("eure-property");
            assert(is_ascii("eure-property"));
            lemma_ascii_lit_avoids("eure-property", 62u8);
            assert(encode_utf8(type_class(t.token_type)) == "eure-property".spec_bytes());
        },
        TokenType::Punctuation => {
            reveal_strlit("eure-punctuation");
            assert(is_ascii("eure-punctuation"));
            lemma_ascii_lit_avoids("eure-punctuation", 62u8);
            assert(encode_utf8(type_class(t.token_type)) == "eure-punctuation".spec_bytes());
        },
        TokenType::Macro => {
            reveal_strlit("eure-macro");
            assert(is_ascii("eure-macro"));
            lemma_ascii_lit_avoids("eure-macro", 62u8);
            assert(encode_utf8(type_class(t.token_type)) == "eure-macro".spec_bytes());
        },
        TokenType::Decorator => {
            reveal_strlit("eure-decorator");
            assert(is_ascii("eure-decorator"));
            lemma_ascii_lit_avoids("eure-decorator", 62u8);
            assert(encode_utf8(type_class(t.token_type)) == "eure-decorator".spec_bytes());
        },
        TokenType::SectionMarker => {
            reveal_strlit("eure-section-marker");
            assert(is_ascii("eure-section-marker"));
            lemma_ascii_lit_avoids("eure-section-marker", 62u8);
            assert(encode_utf8(type_class(t.token_type)) == "eure-section-marker".spec_bytes());
        },
        TokenType::ExtensionMarker => {
            reveal_strlit("eure-extension-marker");
            assert(is_ascii("eure-extension-marker"));
            lemma_ascii_lit_avoids("eure-extension-marker", 62u8);
            assert(encode_utf8(type_class(t.token_type)) == "eure-extension-marker".spec_bytes());
        },
        TokenType::ExtensionIdent => {
            reveal_strlit("eure-extension-ident");
            assert(is_ascii("eure-extension-ident"));
            lemma_ascii_lit_avoids("eure-extension-ident", 62u8);
            assert(encode_utf8(type_class(t.token_type)) == "eure-extension-ident".spec_bytes());
        },
    }
    reveal_strlit(" eure-mod-declaration");
    reveal_strlit(" eure-mod-definition");
    reveal_strlit(" eure-mod-section-header");
    assert(is_ascii(" eure-mod-declaration"));
    assert(is_ascii(" eure-mod-definition"));
    assert(is_ascii(" eure-mod-section-header"));
    lemma_ascii_lit_avoids(" eure-mod-declaration", 62u8);
    lemma_ascii_lit_avoids(" eure-mod-definition", 62u8);
    lemma_ascii_lit_avoids(" eure-mod-section-header", 62u8);
    let a = encode_utf8(type_class(t.token_type));
    let m1: Seq<u8> = if t.modifiers & MOD_DECLARATION != 0 {
        " eure-mod-declaration".spec_bytes()
    } else {
        Seq::empty()
    };
    let m2: Seq<u8> = if t.modifiers & MOD_DEFINITION != 0 {
        " eure-mod-definition".spec_bytes()
    } else {
        Seq::empty()
    };
    let m3: Seq<u8> = if t.modifiers & MOD_SECTION_HEADER != 0 {
        " eure-mod-section-header".spec_bytes()
    } else {
        Seq::empty()
    };
    let x = classes_of(t);
    assert(x == a + m1 + m2 + m3);
    assert forall|i: int| 0 <= i < x.len() implies x[i] != 62u8 by {
        if i < a.len() {
            assert(x[i] == a[i]);
        } else if i < a.len() + m1.len() {
            assert(x[i] == m1[i - a.len()]);
        } else if i < a.len() + m1.len() + m2.len() {
            assert(x[i] == m2[i - a.len() - m1.len()]);
        } else {
            assert(x[i] == m3[i - a.len() - m1.len() - m2.len()]);
        }
    }
}

/// Tag stripping leaves of a token's markup its escaped text.
proof fn lemma_strip_token(c: Seq<u8>, s: int, e: int, t: Token, rest: Seq<u8>)
    ensures
        strip_from(token_html(c, s, e, t) + rest, false) == escaped(c.subrange(s, e), false)
            + strip_from(rest, false),
{
    reveal_strlit("<span class=\"");
    reveal_strlit("\">");
    reveal_strlit("</span>");
    assert(is_ascii("<span class=\""));
    assert(is_ascii("\">"));
    assert(is_ascii("</span>"));
    lemma_ascii_lit_avoids("<span class=\"", 62u8);
    lemma_ascii_lit_avoids("\">", 0u8);
    lemma_ascii_lit_avoids("</span>", 0u8);
    lemma_classes_no_gt(t);
    let l1 = "<span class=\"".spec_bytes();
    let l2 = "\">".spec_bytes();
    let close = "</span>".spec_bytes();
    let open = l1 + classes_of(t) + l2;
    let esc = escaped(c.subrange(s, e), false);
    assert(open[0] == l1[0]);
    assert(open.last() == l2[1]);
    assert forall|i: int| 0 <= i < open.len() - 1 implies open[i] != 62u8 by {
        if i < l1.len() {
            assert(open[i] == l1[i]);
        } else if i < l1.len() + classes_of(t).len() {
            assert(open[i] == classes_of(t)[i - l1.len()]);
        } else {
            assert(open[i] == l2[i - l1.len() - classes_of(t).len()]);
        }
    }
    assert(close.len() == 7);
    assert forall|i: int| 0 <= i < close.len() - 1 implies close[i] != 62u8 by {}
    assert(token_html(c, s, e, t) + rest =~= open + (esc + (close + rest)));
    lemma_strip_tag(open, esc + (close + rest));
    lemma_escaped_no_lt(c.subrange(s, e), false);
    lemma_strip_text(esc, close + rest);
    lemma_strip_tag(close, rest);
}

/// The escaped texts of a sequence of pieces of `c`, one after the other.
pub open spec fn escaped_texts(c: Seq<u8>, segs: Seq<Segment>) -> Seq<u8>
    decreases segs.len(),
{
    if segs.len() == 0 {
        Seq::empty()
    } else {
        escaped_texts(c, segs.drop_last()) + escaped(
            c.subrange(segs.last().start, segs.last().end),
            false,
        )
    }
}

proof fn lemma_strip_segments(c: Seq<u8>, segs: Seq<Segment>, rs: Seq<CodeBlockRegion>, rest: Seq<u8>, g: Answers)
    ensures
        strip_from(segments_html(c, segs, rs, false, g) + rest, false) == escaped_texts(c, segs)
            + strip_from(rest, false),
    decreases segs.len(),
{
    if segs.len() == 0 {
        assert(segments_html(c, segs, rs, false, g) + rest =~= rest);
        assert(escaped_texts(c, segs) + strip_from(rest, false) =~= strip_from(rest, false));
    } else {
        let init = segs.drop_last();
        let sg = segs.last();
        let esc = escaped(c.subrange(sg.start, sg.end), false);
        let gh = match sg.token {
            Some(t) => token_html(c, sg.start, sg.end, t),
            None => gap_html(c, sg.start, sg.end, rs, false, g),
        };
        assert(segments_html(c, segs, rs, false, g) + rest =~= segments_html(c, init, rs, false, g) + (gh
            + rest));
        lemma_strip_segments(c, init, rs, gh + rest, g);
        match sg.token {
            Some(t) => {
                lemma_strip_token(c, sg.start, sg.end, t, rest);
            },
            None => {
                assert(gh == esc);
                lemma_escaped_no_lt(c.subrange(sg.start, sg.end), false);
                lemma_strip_text(esc, rest);
            },
        }
        assert(escaped_texts(c, init) + (esc + strip_from(rest, false)) =~= escaped_texts(c, segs)
            + strip_from(rest, false));
    }
}

proof fn lemma_escaped_texts(c: Seq<u8>, segs: Seq<Segment>)
    ensures
        escaped_texts(c, segs) == escaped(segments_text(c, segs), false),
    decreases segs.len(),
{
    if segs.len() == 0 {
        assert(segments_text(c, segs) == Seq::<u8>::empty());
        assert(escaped(Seq::<u8>::empty(), false) == Seq::<u8>::empty());
    } else {
        lemma_escaped_texts(c, segs.drop_last());
        lemma_escaped_concat(
            segments_text(c, segs.drop_last()),
            c.subrange(segs.last().start, segs.last().end),
            false,
        );
    }
}

/// Round trip of the returned markup: for any token stream and regions,
/// the markup that `render_tokens_to_string` returns without a highlighter,
/// with its tags taken out and its entities decoded, is the input byte for
/// byte.
pub proof fn lemma_markup_round_trip(c: Seq<u8>, toks: Seq<Token>, rs: Seq<CodeBlockRegion>, g: Answers)
    ensures
        unescaped(strip_tags(segments_html(c, segments(c, toks), rs, false, g))) == c,
{
    let segs = segments(c, toks);
    lemma_strip_segments(c, segs, rs, Seq::empty(), g);
    assert(segments_html(c, segs, rs, false, g) + Seq::<u8>::empty() =~= segments_html(
        c,
        segs,
        rs,
        false,
    g,
    ));
    assert(strip_from(Seq::<u8>::empty(), false) == Seq::<u8>::empty());
    assert(escaped_texts(c, segs) + Seq::<u8>::empty() =~= escaped_texts(c, segs));
    lemma_escaped_texts(c, segs);
    lemma_segments_cover(c, toks);
    lemma_unescaped_escaped(c, false);
}

/// Where a gap meets a fenced region tagged `eure`, the
/// part of the region's content inside the gap is rendered as exactly the
/// markup that this text gets as a top-level Eure text
/// (`render_eure_tokens_only`, the same tokens with the same classes),
/// inlined without a wrapper between the escaped text before and after it.
proof fn lemma_embedded_eure_is_top_level(
    c: Seq<u8>,
    a: int,
    b: int,
    rs: Seq<CodeBlockRegion>,
    r: CodeBlockRegion,
    g: Answers,
)
    requires
        first_overlap(rs, a, b) == Some(r),
        regions_wf(rs, c.len() as int),
        region_lang(c, r) == "eure".spec_bytes(),
        slice_ok(c, r.lang_start as int, r.lang_end as int),
        0 <= a <= b <= c.len(),
        valid_utf8(c),
        is_char_boundary(c, cut_start(r, a)),
        is_char_boundary(c, cut_end(r, b)),
    ensures
        gap_html(c, a, b, rs, true, g) == escaped(c.subrange(a, cut_start(r, a)), false) + compose(
            c.subrange(cut_start(r, a), cut_end(r, b)),
            true,
    g,
        ) + escaped(c.subrange(cut_end(r, b), b), false),
{
    lemma_first_overlap_in(rs, a, b);
    let k = choose|k: int| 0 <= k < rs.len() && rs[k] == r;
    assert(region_wf(rs[k], c.len() as int));
    lemma_slice_valid(c, cut_start(r, a), cut_end(r, b));
    assert("eure".spec_bytes().len() > 0) by {
        reveal_strlit("eure");
    }
}


/// The cut points of a scanned region inside a range that starts and ends
/// at characters are characters too, and the region's tag can be taken out.
proof fn lemma_region_cuts(c: Seq<u8>, a: int, b: int, r: CodeBlockRegion)
    requires
        valid_utf8(c),
        c.len() <= usize::MAX,
        code_regions(c).contains(r),
        0 <= a <= b <= c.len(),
        is_char_boundary(c, a),
        is_char_boundary(c, b),
    ensures
        is_char_boundary(c, cut_start(r, a)),
        is_char_boundary(c, cut_end(r, b)),
        slice_ok(c, r.lang_start as int, r.lang_end as int),
        regions_wf(code_regions(c), c.len() as int),
{
    let rs = code_regions(c);
    lemma_regions_from_facts(c, 0);
    let k = choose|k: int| 0 <= k < rs.len() && rs[k] == r;
    assert(region_facts(c, rs[k], -1));
    lemma_after_ascii(c, r.content_start - 1);
    lemma_ascii_boundary(c, r.content_end as int);
    lemma_after_ascii(c, r.lang_start - 1);
    lemma_ascii_boundary(c, r.lang_end as int);
    lemma_slice_valid(c, r.lang_start as int, r.lang_end as int);
    assert forall|m: int| 0 <= m < rs.len() implies region_wf(#[trigger] rs[m], c.len() as int) by {
        assert(region_facts(c, rs[m], -1));
    }
}

/// Self-reference: wherever a gap between tokens of an Eure text (which
/// starts and ends at characters, as every gap does) meets a fenced region
/// tagged `eure`, the part of the region's content inside the gap is
/// rendered as exactly the markup that this text gets as a top-level Eure
/// text (`render_eure_tokens_only`: the same tokens with the same classes),
/// inlined without a wrapper between the escaped text before and after it.
pub proof fn lemma_embedded_eure_in_gap(
    c: Seq<u8>,
    a: int,
    b: int,
    r: CodeBlockRegion,
    g: Answers,
)
    requires
        valid_utf8(c),
        c.len() <= usize::MAX,
        0 <= a <= b <= c.len(),
        is_char_boundary(c, a),
        is_char_boundary(c, b),
        first_overlap(code_regions(c), a, b) == Some(r),
        region_lang(c, r) == "eure".spec_bytes(),
    ensures
        gap_html(c, a, b, code_regions(c), true, g) == escaped(c.subrange(a, cut_start(r, a)), false)
            + compose(c.subrange(cut_start(r, a), cut_end(r, b)), true, g) + escaped(
            c.subrange(cut_end(r, b), b),
            false,
        ),
{
    lemma_first_overlap_in(code_regions(c), a, b);
    lemma_region_cuts(c, a, b, r);
    lemma_embedded_eure_is_top_level(c, a, b, code_regions(c), r, g);
}

/// The position after an ASCII byte of valid UTF-8 starts a character.
proof fn lemma_after_ascii(c: Seq<u8>, k: int)
    requires
        valid_utf8(c),
        0 <= k < c.len(),
        c[k] < 128,
    ensures
        is_char_boundary(c, k + 1),
{
    lemma_ascii_boundary(c, k);
    valid_utf8_split(c, k);
    let t = c.subrange(k, c.len() as int);
    assert(t[0] == c[k]);
    let u = t.subrange(1, t.len() as int);
    assert(valid_utf8(t));
    assert(length_of_first_scalar(t) == 1);
    assert(pop_first_scalar(t) =~= u);
    assert(valid_utf8(u));
    if k + 1 < c.len() {
        assert(u[0] == c[k + 1]);
        assert(valid_first_scalar(u));
        assert(!is_continuation_byte(u[0]));
        is_char_boundary_iff_not_is_continuation_byte(c, k + 1);
    } else {
        is_char_boundary_start_end_of_seq(c);
    }
}

/// Where `next_newline` stops.
proof fn lemma_next_newline(c: Seq<u8>, a: int, b: int)
    requires
        0 <= a <= b <= c.len(),
    ensures
        a <= next_newline(c, a, b) <= b,
        next_newline(c, a, b) < b ==> c[next_newline(c, a, b)] == NEWLINE,
    decreases b - a,
{
    if a < b && c[a] != NEWLINE {
        lemma_next_newline(c, a + 1, b);
    }
}

proof fn lemma_line_part_valid(c: Seq<u8>, a: int, b: int, lang: Seq<char>, g: Answers)
    requires
        answers_ok(g),
        valid_utf8(c),
        0 <= a <= b <= c.len(),
        is_char_boundary(c, a),
        is_char_boundary(c, b),
    ensures
        valid_utf8(line_part_html(c, a, b, lang, g)),
{
    lemma_valid_parts();
    lemma_slice_valid(c, a, b);
    let line = decode_utf8(c.subrange(a, b));
    assert(g(false, line, lang) matches Some(v) ==> valid_utf8(v));
}

proof fn lemma_lines_valid(c: Seq<u8>, a: int, b: int, lang: Seq<char>, g: Answers)
    requires
        answers_ok(g),
        valid_utf8(c),
        0 <= a <= b <= c.len(),
        is_char_boundary(c, a),
        is_char_boundary(c, b),
    ensures
        valid_utf8(lines_html(c, a, b, lang, g)),
    decreases b - a,
{
    lemma_valid_parts();
    let k = next_newline(c, a, b);
    lemma_next_newline(c, a, b);
    if a <= k && k < b {
        lemma_ascii_boundary(c, k);
        lemma_after_ascii(c, k);
        lemma_line_part_valid(c, a, k, lang, g);
        lemma_lines_valid(c, k + 1, b, lang, g);
        lemma_ascii_prefix_valid(NEWLINE, Seq::empty());
        assert(seq![NEWLINE] + Seq::<u8>::empty() =~= seq![NEWLINE]);
    } else {
        lemma_line_part_valid(c, a, b, lang, g);
    }
}

/// A piece of `c` that starts and ends at characters.
pub open spec fn seg_ok(c: Seq<u8>, g: Segment) -> bool {
    &&& 0 <= g.start <= g.end <= c.len()
    &&& is_char_boundary(c, g.start)
    &&& is_char_boundary(c, g.end)
}

proof fn lemma_segments_ok(c: Seq<u8>, toks: Seq<Token>, i: int, last: int)
    requires
        valid_utf8(c),
        0 <= i,
        0 <= last <= c.len(),
        is_char_boundary(c, last),
    ensures
        forall|k: int|
            0 <= k < segments_from(c, toks, i, last).len() ==> seg_ok(
                c,
                #[trigger] segments_from(c, toks, i, last)[k],
            ),
    decreases toks.len() - i,
{
    let len = c.len() as int;
    is_char_boundary_start_end_of_seq(c);
    if i < toks.len() {
        let t = toks[i];
        let st = t.start as int;
        let e = st + t.length as int;
        if last <= st && e <= len && is_char_boundary(c, st) && is_char_boundary(c, e) {
            lemma_segments_ok(c, toks, i + 1, e);
            let gap: Seq<Segment> = if last < st {
                seq![Segment { start: last, end: st, token: None }]
            } else {
                Seq::empty()
            };
            let tok = seq![Segment { start: st, end: e, token: Some(t) }];
            let rest = segments_from(c, toks, i + 1, e);
            let all = segments_from(c, toks, i, last);
            assert(all == gap + tok + rest);
            assert forall|k: int| 0 <= k < all.len() implies seg_ok(c, #[trigger] all[k]) by {
                if k < gap.len() {
                    assert(all[k] == gap[k]);
                } else if k < gap.len() + 1 {
                    assert(all[k] == tok[k - gap.len()]);
                } else {
                    assert(all[k] == rest[k - gap.len() - 1]);
                }
            }
        } else {
            lemma_segments_ok(c, toks, i + 1, last);
            assert(segments_from(c, toks, i, last) == segments_from(c, toks, i + 1, last));
        }
    } else {
        let all = segments_from(c, toks, i, last);
        if last < len {
            assert(all =~= seq![Segment { start: last, end: len, token: None }]);
            assert(seg_ok(c, all[0]));
        }
    }
}

proof fn lemma_compose_valid(c: Seq<u8>, hl: bool, g: Answers)
    requires
        answers_ok(g),
        valid_utf8(c),
    ensures
        valid_utf8(compose(c, hl, g)),
    decreases c.len(), 2int, 0int,
{
    let toks = eure_tokens(c);
    is_char_boundary_start_end_of_seq(c);
    lemma_segments_ok(c, toks, 0, 0);
    lemma_segments_html_valid(c, segments(c, toks), code_regions(c), hl, g);
}

proof fn lemma_segments_html_valid(
    c: Seq<u8>,
    segs: Seq<Segment>,
    rs: Seq<CodeBlockRegion>,
    hl: bool,
    g: Answers,
)
    requires
        answers_ok(g),
        valid_utf8(c),
        forall|k: int| 0 <= k < segs.len() ==> seg_ok(c, #[trigger] segs[k]),
    ensures
        valid_utf8(segments_html(c, segs, rs, hl, g)),
    decreases c.len(), 1int, segs.len() as int,
{
    lemma_valid_parts();
    if segs.len() > 0 {
        let pre = segs.drop_last();
        assert forall|k: int| 0 <= k < pre.len() implies seg_ok(c, #[trigger] pre[k]) by {
            assert(pre[k] == segs[k]);
        }
        lemma_segments_html_valid(c, pre, rs, hl, g);
        let sg = segs.last();
        assert(seg_ok(c, segs[segs.len() - 1]));
        match sg.token {
            Some(t) => {
                lemma_slice_valid(c, sg.start, sg.end);
            },
            None => {
                lemma_gap_valid(c, sg.start, sg.end, rs, hl, g);
            },
        }
    }
}

proof fn lemma_gap_valid(c: Seq<u8>, a: int, b: int, rs: Seq<CodeBlockRegion>, hl: bool, g: Answers)
    requires
        answers_ok(g),
        valid_utf8(c),
        0 <= a <= b <= c.len(),
        is_char_boundary(c, a),
        is_char_boundary(c, b),
    ensures
        valid_utf8(gap_html(c, a, b, rs, hl, g)),
    decreases c.len(), 0int, 0int,
{
    lemma_valid_parts();
    lemma_slice_valid(c, a, b);
    match first_overlap(rs, a, b) {
        Some(r) => {
            let s = cut_start(r, a);
            let e = cut_end(r, b);
            if highlights(c, r, hl) && 0 < s && a <= s && s <= e && e <= b && b <= c.len()
                && is_char_boundary(c, s) && is_char_boundary(c, e) {
                lemma_slice_valid(c, a, s);
                lemma_slice_valid(c, e, b);
                lemma_slice_valid(c, s, e);
                if region_lang(c, r) == "eure".spec_bytes() {
                    lemma_compose_valid(c.subrange(s, e), hl, g);
                } else {
                    lemma_lines_valid(c, s, e, decode_utf8(region_lang(c, r)), g);
                }
            }
        },
        None => {},
    }
}

proof fn lemma_wrapped_valid(h: Seq<u8>, a: int)
    requires
        valid_utf8(h),
        0 <= a <= h.len(),
        is_char_boundary(h, a),
    ensures
        valid_utf8(wrapped_lines(h, a)),
    decreases h.len() - a,
{
    lemma_valid_parts();
    is_char_boundary_start_end_of_seq(h);
    let k = next_newline(h, a, h.len() as int);
    lemma_next_newline(h, a, h.len() as int);
    if a <= k && k < h.len() {
        lemma_ascii_boundary(h, k);
        lemma_after_ascii(h, k);
        lemma_slice_valid(h, a, k);
        lemma_wrapped_valid(h, k + 1);
    } else {
        lemma_slice_valid(h, a, h.len() as int);
    }
}

/// The markup of an Eure text as a block is valid UTF-8.
pub proof fn lemma_eure_block_valid(c: Seq<u8>, with_line_numbers: bool, hl: bool, g: Answers)
    requires
        answers_ok(g),
        valid_utf8(c),
    ensures
        valid_utf8(eure_block(c, with_line_numbers, hl, g)),
{
    lemma_valid_parts();
    lemma_compose_valid(c, hl, g);
    let h = compose(c, hl, g);
    is_char_boundary_start_end_of_seq(h);
    lemma_wrapped_valid(h, 0);
}

} // verus!
