//! Rendering of text leaves: by language tag, then with their marks
//! (raw HTML or an alert box).
use vstd::prelude::*;
use vstd::string::*;
use vstd::utf8::*;

use crate::article::{AlertType, ArticleError, Language, MarkOptions, Text};
use crate::code_highlight::{
    answer_bytes, answers_ok, block_html, block_markup_from, lemma_agrees_prefix, lemma_block_valid,
    lemma_cache_answers, lemma_extends_trans, str_eq, Answers, CodeHighlighter, HighlightCache,
};
use crate::highlight::{eure_block, eure_block_markup, lemma_eure_block_valid};
use crate::markup::{
    escaped, lemma_valid_parts, push_bytes, push_escaped, push_str, utf8_to_string,
};

verus! {

/// Octicon shown on note alerts.
pub const NOTE_ICON: &'static str = r#"<svg xmlns="http://www.w3.org/2000/svg" viewBox="0 0 16 16" width="16" height="16" fill="currentColor"><path d="M0 8a8 8 0 1 1 16 0A8 8 0 0 1 0 8Zm8-6.5a6.5 6.5 0 1 0 0 13 6.5 6.5 0 0 0 0-13ZM6.5 7.75A.75.75 0 0 1 7.25 7h1a.75.75 0 0 1 .75.75v2.75h.25a.75.75 0 0 1 0 1.5h-2a.75.75 0 0 1 0-1.5h.25v-2h-.25a.75.75 0 0 1-.75-.75ZM8 6a1 1 0 1 1 0-2 1 1 0 0 1 0 2Z"/></svg>"#;

/// Octicon shown on tip alerts.
pub const TIP_ICON: &'static str = r#"<svg xmlns="http://www.w3.org/2000/svg" viewBox="0 0 16 16" width="16" height="16" fill="currentColor"><path d="M8 1.5c-2.363 0-4 1.69-4 3.75 0 .984.424 1.625.984 2.304l.214.253c.223.264.47.556.673.848.284.411.537.896.621 1.49a.75.75 0 0 1-1.484.211c-.04-.282-.163-.547-.37-.847a8.456 8.456 0 0 0-.542-.68c-.084-.1-.173-.205-.268-.32C3.201 7.75 2.5 6.766 2.5 5.25 2.5 2.31 4.863 0 8 0s5.5 2.31 5.5 5.25c0 1.516-.701 2.5-1.328 3.259-.095.115-.184.22-.268.319-.207.245-.383.453-.541.681-.208.3-.33.565-.37.847a.751.751 0 0 1-1.485-.212c.084-.593.337-1.078.621-1.489.203-.292.45-.584.673-.848.075-.088.147-.173.213-.253.561-.679.985-1.32.985-2.304 0-2.06-1.637-3.75-4-3.75ZM5.75 12h4.5a.75.75 0 0 1 0 1.5h-4.5a.75.75 0 0 1 0-1.5ZM6 15.25a.75.75 0 0 1 .75-.75h2.5a.75.75 0 0 1 0 1.5h-2.5a.75.75 0 0 1-.75-.75Z"/></svg>"#;

/// Octicon shown on important alerts.
pub const IMPORTANT_ICON: &'static str = r#"<svg xmlns="http://www.w3.org/2000/svg" viewBox="0 0 16 16" width="16" height="16" fill="currentColor"><path d="M0 1.75C0 .784.784 0 1.75 0h12.5C15.216 0 16 .784 16 1.75v9.5A1.75 1.75 0 0 1 14.25 13H8.06l-2.573 2.573A1.458 1.458 0 0 1 3 14.543V13H1.75A1.75 1.75 0 0 1 0 11.25Zm1.75-.25a.25.25 0 0 0-.25.25v9.5c0 .138.112.25.25.25h2a.75.75 0 0 1 .75.75v2.19l2.72-2.72a.749.749 0 0 1 .53-.22h6.5a.25.25 0 0 0 .25-.25v-9.5a.25.25 0 0 0-.25-.25Zm7 2.25v2.5a.75.75 0 0 1-1.5 0v-2.5a.75.75 0 0 1 1.5 0ZM9 9a1 1 0 1 1-2 0 1 1 0 0 1 2 0Z"/></svg>"#;

/// Octicon shown on warning alerts.
pub const WARNING_ICON: &'static str = r#"<svg xmlns="http://www.w3.org/2000/svg" viewBox="0 0 16 16" width="16" height="16" fill="currentColor"><path d="M6.457 1.047c.659-1.234 2.427-1.234 3.086 0l6.082 11.378A1.75 1.75 0 0 1 14.082 15H1.918a1.75 1.75 0 0 1-1.543-2.575Zm1.763.707a.25.25 0 0 0-.44 0L1.698 13.132a.25.25 0 0 0 .22.368h12.164a.25.25 0 0 0 .22-.368Zm.53 3.996v2.5a.75.75 0 0 1-1.5 0v-2.5a.75.75 0 0 1 1.5 0ZM9 11a1 1 0 1 1-2 0 1 1 0 0 1 2 0Z"/></svg>"#;

/// Octicon shown on caution alerts.
pub const CAUTION_ICON: &'static str = r#"<svg xmlns="http://www.w3.org/2000/svg" viewBox="0 0 16 16" width="16" height="16" fill="currentColor"><path d="M4.47.22A.749.749 0 0 1 5 0h6c.199 0 .389.079.53.22l4.25 4.25c.141.14.22.331.22.53v6a.749.749 0 0 1-.22.53l-4.25 4.25A.749.749 0 0 1 11 16H5a.749.749 0 0 1-.53-.22L.22 11.53A.749.749 0 0 1 0 11V5c0-.199.079-.389.22-.53Zm.84 1.28L1.5 5.31v5.38l3.81 3.81h5.38l3.81-3.81V5.31L10.69 1.5ZM8 4a.75.75 0 0 1 .75.75v3.5a.75.75 0 0 1-1.5 0v-3.5A.75.75 0 0 1 8 4Zm0 8a1 1 0 1 1 0-2 1 1 0 0 1 0 2Z"/></svg>"#;

/// The HTML that the markdown compiler gives for `content` (GitHub
/// flavour, raw HTML allowed), or `None` where it fails.
pub uninterp spec fn markdown_html(content: Seq<char>) -> Option<Seq<char>>;

/// Relies on `markdown::to_html_with_options` with GitHub-flavoured options
/// and raw HTML allowed: the result depends on the text alone.
#[verifier::external_body]
fn compile_markdown(content: &str) -> (r: Option<String>)
    ensures
        match r {
            Some(h) => markdown_html(content@) == Some(h@),
            None => markdown_html(content@) is None,
        },
{
    let options = markdown::Options {
        compile: markdown::CompileOptions {
            allow_dangerous_html: true,
            ..markdown::CompileOptions::default()
        },
        ..markdown::Options::gfm()
    };
    markdown::to_html_with_options(content, &options).ok()
}

/// Markup of a markdown leaf: the compiled HTML, or where compiling fails
/// the escaped text, in a markdown container.
pub open spec fn markdown_block(content: Seq<char>) -> Seq<u8> {
    "<div class=\"markdown-content\">".spec_bytes() + match markdown_html(content) {
        Some(h) => encode_utf8(h),
        None => escaped(encode_utf8(content), true),
    } + "</div>".spec_bytes()
}

fn render_markdown(content: &str) -> (r: Vec<u8>)
    ensures
        r@ == markdown_block(content@),
{
    let mut out: Vec<u8> = Vec::new();
    push_str(&mut out, "<div class=\"markdown-content\">");
    match compile_markdown(content) {
        Some(h) => push_str(&mut out, h.as_str()),
        None => push_escaped(&mut out, content.as_bytes(), true),
    }
    push_str(&mut out, "</div>");
    out
}

/// Markup of a leaf in a named language: markdown is compiled, Eure goes
/// through the region compositor, anything else through giallo, whose
/// answers `g` gives.
pub open spec fn language_html(content: Seq<char>, lang: Seq<char>, g: Answers) -> Seq<u8> {
    if lang == "markdown"@ {
        markdown_block(content)
    } else if lang == "eure"@ {
        eure_block(encode_utf8(content), false, true, g)
    } else {
        block_html(content, lang, g(true, content, lang))
    }
}

fn render_with_language(
    content: &str,
    lang: &str,
    highlighter: &CodeHighlighter,
    cache: &mut HighlightCache,
) -> (r: Vec<u8>)
    requires
        old(cache).wf(),
    ensures
        final(cache).wf(),
        final(cache).extends(*old(cache)),
        forall|g: Answers|
            #[trigger] final(cache).agrees(g) ==> r@ == language_html(content@, lang@, g),
{
    assert forall|j: int| 0 <= j < cache.entries@.len() implies #[trigger] cache.entries@[j]
        == cache.entries@[j] by {}
    if str_eq(lang, "markdown") {
        render_markdown(content)
    } else if str_eq(lang, "eure") {
        eure_block_markup(content, false, Some(highlighter), cache)
    } else {
        let answer = cache.answer(highlighter, true, content, lang);
        block_markup_from(content, lang, &answer)
    }
}

/// Markup of a text: plain text escaped, inline code escaped in a code
/// element, a named language by `language_html`.
pub open spec fn text_html(t: Text, g: Answers) -> Seq<u8> {
    match t.language {
        Language::Plaintext => "<span class=\"text-plain\">".spec_bytes() + escaped(
            encode_utf8(t.content@),
            true,
        ) + "</span>".spec_bytes(),
        Language::Implicit => "<code class=\"code-inline\">".spec_bytes() + escaped(
            encode_utf8(t.content@),
            true,
        ) + "</code>".spec_bytes(),
        Language::Other(l) => language_html(t.content@, l@, g),
    }
}

/// Markup bytes of a text.
pub fn text_markup(text: &Text, highlighter: &CodeHighlighter, cache: &mut HighlightCache) -> (r:
    Vec<u8>)
    requires
        old(cache).wf(),
    ensures
        final(cache).wf(),
        final(cache).extends(*old(cache)),
        forall|g: Answers| #[trigger] final(cache).agrees(g) ==> r@ == text_html(*text, g),
{
    assert forall|j: int| 0 <= j < cache.entries@.len() implies #[trigger] cache.entries@[j]
        == cache.entries@[j] by {}
    match &text.language {
        Language::Plaintext => {
            let mut out: Vec<u8> = Vec::new();
            push_str(&mut out, "<span class=\"text-plain\">");
            push_escaped(&mut out, text.content.as_str().as_bytes(), true);
            push_str(&mut out, "</span>");
            out
        },
        Language::Implicit => {
            let mut out: Vec<u8> = Vec::new();
            push_str(&mut out, "<code class=\"code-inline\">");
            push_escaped(&mut out, text.content.as_str().as_bytes(), true);
            push_str(&mut out, "</code>");
            out
        },
        Language::Other(lang) => render_with_language(
            text.content.as_str(),
            lang.as_str(),
            highlighter,
            cache,
        ),
    }
}

/// The markup of a text is valid UTF-8.
pub proof fn lemma_text_valid(t: Text, g: Answers)
    requires
        answers_ok(g),
    ensures
        valid_utf8(text_html(t, g)),
{
    lemma_valid_parts();
    match t.language {
        Language::Other(l) => {
            lemma_eure_block_valid(encode_utf8(t.content@), false, true, g);
            lemma_block_valid(t.content@, l@, g(true, t.content@, l@));
        },
        _ => {},
    }
}

/// The markup of a text leaf with its marks is valid UTF-8.
pub proof fn lemma_leaf_valid(t: Text, m: MarkOptions, g: Answers)
    requires
        answers_ok(g),
    ensures
        leaf_html(t, m, g) matches Some(h) ==> valid_utf8(h),
{
    lemma_valid_parts();
    lemma_text_valid(t, g);
}

/// Renders a text as markup.
pub fn render_text(text: &Text, highlighter: &CodeHighlighter) -> (r: String)
    ensures
        exists|g: Answers| answers_ok(g) && r@ == decode_utf8(#[trigger] text_html(*text, g)),
{
    let mut cache = HighlightCache::new();
    let out = text_markup(text, highlighter, &mut cache);
    proof {
        lemma_cache_answers(cache);
        lemma_text_valid(*text, cache.answers());
    }
    utf8_to_string(out.as_slice())
}

/// CSS class suffix of an alert kind.
pub open spec fn alert_suffix(a: AlertType) -> Seq<char> {
    match a {
        AlertType::Note => "note"@,
        AlertType::Tip => "tip"@,
        AlertType::Important => "important"@,
        AlertType::Warning => "warning"@,
        AlertType::Caution => "caution"@,
    }
}

/// Icon of an alert kind.
pub open spec fn alert_icon(a: AlertType) -> Seq<char> {
    match a {
        AlertType::Note => NOTE_ICON@,
        AlertType::Tip => TIP_ICON@,
        AlertType::Important => IMPORTANT_ICON@,
        AlertType::Warning => WARNING_ICON@,
        AlertType::Caution => CAUTION_ICON@,
    }
}

/// Title of an alert kind.
pub open spec fn alert_title(a: AlertType) -> Seq<char> {
    match a {
        AlertType::Note => "Note"@,
        AlertType::Tip => "Tip"@,
        AlertType::Important => "Important"@,
        AlertType::Warning => "Warning"@,
        AlertType::Caution => "Caution"@,
    }
}

/// The class suffix, icon and title of an alert kind.
pub fn alert_parts(a: AlertType) -> (r: (&'static str, &'static str, &'static str))
    ensures
        r.0@ == alert_suffix(a),
        r.1@ == alert_icon(a),
        r.2@ == alert_title(a),
{
    match a {
        AlertType::Note => ("note", NOTE_ICON, "Note"),
        AlertType::Tip => ("tip", TIP_ICON, "Tip"),
        AlertType::Important => ("important", IMPORTANT_ICON, "Important"),
        AlertType::Warning => ("warning", WARNING_ICON, "Warning"),
        AlertType::Caution => ("caution", CAUTION_ICON, "Caution"),
    }
}

/// Markup of an alert box of kind `a` around `content`.
pub open spec fn alert_html(a: AlertType, content: Seq<u8>) -> Seq<u8> {
    "<div class=\"alert alert-".spec_bytes() + encode_utf8(alert_suffix(a))
        + "\"><div class=\"alert-title\"><span class=\"alert-icon\">".spec_bytes() + encode_utf8(
        alert_icon(a),
    ) + "</span><span class=\"alert-title-text\">".spec_bytes() + encode_utf8(alert_title(a))
        + "</span></div><div class=\"alert-content\">".spec_bytes() + content
        + "</div></div>".spec_bytes()
}

/// A text is tagged `html`.
pub open spec fn is_html(t: Text) -> bool {
    t.language matches Language::Other(l) && l@ == "html"@
}

/// Markup of a text leaf with its marks: raw HTML emitted as it is (only
/// for `html` leaves; `None` otherwise), else the text's markup, in an
/// alert box where an alert is set.
pub open spec fn leaf_html(t: Text, m: MarkOptions, g: Answers) -> Option<Seq<u8>> {
    if m.dangerously_inner_html {
        if is_html(t) {
            Some(
                "<div class=\"markdown-content\">".spec_bytes() + encode_utf8(t.content@)
                    + "</div>".spec_bytes(),
            )
        } else {
            None
        }
    } else {
        match m.alert {
            Some(a) => Some(alert_html(a, text_html(t, g))),
            None => Some(text_html(t, g)),
        }
    }
}

/// Renders a text leaf with its marks; a raw-HTML mark on a leaf that is
/// not tagged `html` is refused.
pub fn render_text_with_mark(
    text: &Text,
    mark: &MarkOptions,
    highlighter: &CodeHighlighter,
    cache: &mut HighlightCache,
) -> (r: Result<Vec<u8>, ArticleError>)
    requires
        old(cache).wf(),
    ensures
        final(cache).wf(),
        final(cache).extends(*old(cache)),
        forall|g: Answers|
            #[trigger] final(cache).agrees(g) ==> match leaf_html(*text, *mark, g) {
                Some(h) => r matches Ok(v) && v@ == h,
                None => r == Err::<Vec<u8>, ArticleError>(ArticleError::RawHtmlNotHtml),
            },
{
    assert forall|j: int| 0 <= j < cache.entries@.len() implies #[trigger] cache.entries@[j]
        == cache.entries@[j] by {}
    if mark.dangerously_inner_html {
        let html = match &text.language {
            Language::Other(l) => str_eq(l.as_str(), "html"),
            _ => false,
        };
        if !html {
            return Err(ArticleError::RawHtmlNotHtml);
        }
        let mut out: Vec<u8> = Vec::new();
        push_str(&mut out, "<div class=\"markdown-content\">");
        push_str(&mut out, text.content.as_str());
        push_str(&mut out, "</div>");
        return Ok(out);
    }
    let content = text_markup(text, highlighter, cache);
    match mark.alert {
        Some(a) => {
            let (suffix, icon, title) = alert_parts(a);
            let mut out: Vec<u8> = Vec::new();
            push_str(&mut out, "<div class=\"alert alert-");
            push_str(&mut out, suffix);
            push_str(&mut out, "\"><div class=\"alert-title\"><span class=\"alert-icon\">");
            push_str(&mut out, icon);
            push_str(&mut out, "</span><span class=\"alert-title-text\">");
            push_str(&mut out, title);
            push_str(&mut out, "</span></div><div class=\"alert-content\">");
            push_bytes(&mut out, content.as_slice());
            push_str(&mut out, "</div></div>");
            Ok(out)
        },
        None => Ok(content),
    }
}

/// Each of the five alert kinds has its own class and its own icon.
pub proof fn lemma_alert_kinds_distinct(a: AlertType, b: AlertType)
    requires
        a != b,
    ensures
        alert_suffix(a) != alert_suffix(b),
        alert_icon(a) != alert_icon(b),
{
    reveal_strlit("note");
    reveal_strlit("tip");
    reveal_strlit("important");
    reveal_strlit("warning");
    reveal_strlit("caution");
    assert(alert_suffix(a).len() != alert_suffix(b).len() || alert_suffix(a)[0] != alert_suffix(
        b,
    )[0]);
    assert(alert_icon(a).len() != alert_icon(b).len()) by {
        reveal_strlit(r#"<svg xmlns="http://www.w3.org/2000/svg" viewBox="0 0 16 16" width="16" height="16" fill="currentColor"><path d="M0 8a8 8 0 1 1 16 0A8 8 0 0 1 0 8Zm8-6.5a6.5 6.5 0 1 0 0 13 6.5 6.5 0 0 0 0-13ZM6.5 7.75A.75.75 0 0 1 7.25 7h1a.75.75 0 0 1 .75.75v2.75h.25a.75.75 0 0 1 0 1.5h-2a.75.75 0 0 1 0-1.5h.25v-2h-.25a.75.75 0 0 1-.75-.75ZM8 6a1 1 0 1 1 0-2 1 1 0 0 1 0 2Z"/></svg>"#);
        reveal_strlit(r#"<svg xmlns="http://www.w3.org/2000/svg" viewBox="0 0 16 16" width="16" height="16" fill="currentColor"><path d="M8 1.5c-2.363 0-4 1.69-4 3.75 0 .984.424 1.625.984 2.304l.214.253c.223.264.47.556.673.848.284.411.537.896.621 1.49a.75.75 0 0 1-1.484.211c-.04-.282-.163-.547-.37-.847a8.456 8.456 0 0 0-.542-.68c-.084-.1-.173-.205-.268-.32C3.201 7.75 2.5 6.766 2.5 5.25 2.5 2.31 4.863 0 8 0s5.5 2.31 5.5 5.25c0 1.516-.701 2.5-1.328 3.259-.095.115-.184.22-.268.319-.207.245-.383.453-.541.681-.208.3-.33.565-.37.847a.751.751 0 0 1-1.485-.212c.084-.593.337-1.078.621-1.489.203-.292.45-.584.673-.848.075-.088.147-.173.213-.253.561-.679.985-1.32.985-2.304 0-2.06-1.637-3.75-4-3.75ZM5.75 12h4.5a.75.75 0 0 1 0 1.5h-4.5a.75.75 0 0 1 0-1.5ZM6 15.25a.75.75 0 0 1 .75-.75h2.5a.75.75 0 0 1 0 1.5h-2.5a.75.75 0 0 1-.75-.75Z"/></svg>"#);
        reveal_strlit(r#"<svg xmlns="http://www.w3.org/2000/svg" viewBox="0 0 16 16" width="16" height="16" fill="currentColor"><path d="M0 1.75C0 .784.784 0 1.75 0h12.5C15.216 0 16 .784 16 1.75v9.5A1.75 1.75 0 0 1 14.25 13H8.06l-2.573 2.573A1.458 1.458 0 0 1 3 14.543V13H1.75A1.75 1.75 0 0 1 0 11.25Zm1.75-.25a.25.25 0 0 0-.25.25v9.5c0 .138.112.25.25.25h2a.75.75 0 0 1 .75.75v2.19l2.72-2.72a.749.749 0 0 1 .53-.22h6.5a.25.25 0 0 0 .25-.25v-9.5a.25.25 0 0 0-.25-.25Zm7 2.25v2.5a.75.75 0 0 1-1.5 0v-2.5a.75.75 0 0 1 1.5 0ZM9 9a1 1 0 1 1-2 0 1 1 0 0 1 2 0Z"/></svg>"#);
        reveal_strlit(r#"<svg xmlns="http://www.w3.org/2000/svg" viewBox="0 0 16 16" width="16" height="16" fill="currentColor"><path d="M6.457 1.047c.659-1.234 2.427-1.234 3.086 0l6.082 11.378A1.75 1.75 0 0 1 14.082 15H1.918a1.75 1.75 0 0 1-1.543-2.575Zm1.763.707a.25.25 0 0 0-.44 0L1.698 13.132a.25.25 0 0 0 .22.368h12.164a.25.25 0 0 0 .22-.368Zm.53 3.996v2.5a.75.75 0 0 1-1.5 0v-2.5a.75.75 0 0 1 1.5 0ZM9 11a1 1 0 1 1-2 0 1 1 0 0 1 2 0Z"/></svg>"#);
        reveal_strlit(r#"<svg xmlns="http://www.w3.org/2000/svg" viewBox="0 0 16 16" width="16" height="16" fill="currentColor"><path d="M4.47.22A.749.749 0 0 1 5 0h6c.199 0 .389.079.53.22l4.25 4.25c.141.14.22.331.22.53v6a.749.749 0 0 1-.22.53l-4.25 4.25A.749.749 0 0 1 11 16H5a.749.749 0 0 1-.53-.22L.22 11.53A.749.749 0 0 1 0 11V5c0-.199.079-.389.22-.53Zm.84 1.28L1.5 5.31v5.38l3.81 3.81h5.38l3.81-3.81V5.31L10.69 1.5ZM8 4a.75.75 0 0 1 .75.75v3.5a.75.75 0 0 1-1.5 0v-3.5A.75.75 0 0 1 8 4Zm0 8a1 1 0 1 1 0-2 1 1 0 0 1 0 2Z"/></svg>"#);
    }
}

} // verus!
