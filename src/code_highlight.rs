//! Highlighting of code in other languages through giallo's grammar and
//! theme registry, and the names under which languages are shown.
use vstd::prelude::*;
use vstd::string::*;
use vstd::utf8::*;

use crate::markup::{
    escaped, lemma_escaped_valid, lemma_slice_valid, lemma_str_valid, lemma_valid_parts, push_bytes,
    push_escaped,
    push_str, utf8_to_string,
};

verus! {

broadcast use vstd::utf8::encode_utf8_decode_utf8;

/// giallo's registry of grammars and themes, held as an opaque value.
#[verifier::external_type_specification]
#[verifier::external_body]
pub struct ExRegistry(giallo::Registry);

/// giallo's error type, passed on as an opaque value.
#[verifier::external_type_specification]
#[verifier::external_body]
pub struct ExGialloError(giallo::Error);

/// The theme that code is highlighted with.
pub const THEME: &'static str = "catppuccin-mocha";

/// Prefix of the CSS classes that giallo's markup uses.
pub const CLASS_PREFIX: &'static str = "hl-";

/// A run of highlighted text: its text and, where the theme gives one, its
/// colour and whether it is bold or italic.
#[derive(Debug, PartialEq, Eq)]
pub struct StyledText {
    pub text: String,
    pub style: Option<TextStyle>,
}

/// The style of a run of highlighted text.
#[derive(Debug, PartialEq, Eq)]
pub struct TextStyle {
    /// Foreground colour, as `#rrggbb`.
    pub color: String,
    pub bold: bool,
    pub italic: bool,
}

impl View for StyledText {
    type V = (Seq<char>, Option<(Seq<char>, bool, bool)>);

    open spec fn view(&self) -> Self::V {
        (
            self.text@,
            match self.style {
                Some(s) => Some((s.color@, s.bold, s.italic)),
                None => None,
            },
        )
    }
}

/// Relies on `giallo::Registry::builtin`: loads the bundled grammars and themes.
#[verifier::external_body]
fn builtin_registry() -> (r: Result<giallo::Registry, giallo::Error>) {
    giallo::Registry::builtin()
}

/// Relies on `giallo::Registry::link_grammars`: resolves references between grammars.
#[verifier::external_body]
fn link_grammars(registry: &mut giallo::Registry) {
    registry.link_grammars()
}

/// Relies on `giallo::Registry::generate_css`: the stylesheet for a theme.
#[verifier::external_body]
fn registry_css(registry: &giallo::Registry) -> (r: Result<String, giallo::Error>) {
    registry.generate_css(THEME, CLASS_PREFIX)
}

/// Relies on `giallo::Registry::highlight` and `giallo::HtmlRenderer::render`
/// on the highlighter's registry: a highlighted block of markup, or `None`
/// where giallo cannot highlight the language. Nothing more is stated of
/// what giallo returns.
#[verifier::external_body]
fn giallo_render_block(h: &CodeHighlighter, code: &str, lang: &str) -> (r: Option<String>)
{
    let options = giallo::HighlightOptions::new(lang, giallo::ThemeVariant::Single(THEME));
    let highlighted = h.registry.highlight(code, &options).ok()?;
    let renderer = giallo::HtmlRenderer {
        css_class_prefix: Some(CLASS_PREFIX.to_string()),
        ..Default::default()
    };
    Some(renderer.render(&highlighted, &giallo::RenderOptions::default()))
}

/// Relies on `giallo::Registry::highlight` on the highlighter's registry:
/// the styled runs of a text, or `None` where giallo cannot highlight the
/// language. Nothing more is stated of what giallo returns.
#[verifier::external_body]
fn giallo_runs(h: &CodeHighlighter, line: &str, lang: &str) -> (r: Option<Vec<StyledText>>)
{
    let options = giallo::HighlightOptions::new(lang, giallo::ThemeVariant::Single(THEME));
    let highlighted = h.registry.highlight(line, &options).ok()?;
    Some(highlighted.tokens.iter().flatten().map(|t| StyledText {
        text: t.text.clone(),
        style: match &t.style {
            giallo::ThemeVariant::Single(s) => Some(TextStyle {
                color: s.foreground.as_hex(),
                bold: s.font_style.contains(giallo::FontStyle::BOLD),
                italic: s.font_style.contains(giallo::FontStyle::ITALIC),
            }),
            giallo::ThemeVariant::Dual { .. } => None,
        },
    }).collect())
}

/// The value of the `style` attribute of a run.
pub open spec fn style_attr(color: Seq<char>, bold: bool, italic: bool) -> Seq<u8> {
    "color:".spec_bytes() + encode_utf8(color) + if bold {
        ";font-weight:bold".spec_bytes()
    } else if italic {
        ";font-style:italic".spec_bytes()
    } else {
        Seq::empty()
    }
}

/// Markup of one run: a styled span, or the bare text where it has no style.
pub open spec fn run_html(run: (Seq<char>, Option<(Seq<char>, bool, bool)>)) -> Seq<u8> {
    match run.1 {
        Some(st) => "<span style=\"".spec_bytes() + escaped(style_attr(st.0, st.1, st.2), true)
            + "\">".spec_bytes() + escaped(encode_utf8(run.0), true) + "</span>".spec_bytes(),
        None => escaped(encode_utf8(run.0), true),
    }
}

/// Markup of a sequence of runs, one after the other.
pub open spec fn runs_html(runs: Seq<(Seq<char>, Option<(Seq<char>, bool, bool)>)>) -> Seq<u8>
    decreases runs.len(),
{
    if runs.len() == 0 {
        Seq::empty()
    } else {
        runs_html(runs.drop_last()) + run_html(runs.last())
    }
}

/// Highlights code in languages other than Eure. Its registry is private
/// and only `new` builds one: giallo's builtin registry, linked.
pub struct CodeHighlighter {
    registry: giallo::Registry,
}

fn push_run(out: &mut Vec<u8>, run: &StyledText)
    ensures
        final(out)@ == old(out)@ + run_html(run@),
{
    match &run.style {
        Some(st) => {
            let mut attr: Vec<u8> = Vec::new();
            push_str(&mut attr, "color:");
            push_str(&mut attr, st.color.as_str());
            if st.bold {
                push_str(&mut attr, ";font-weight:bold");
            } else if st.italic {
                push_str(&mut attr, ";font-style:italic");
            }
            proof {
                assert(attr@ =~= style_attr(st.color@, st.bold, st.italic));
            }
            push_str(out, "<span style=\"");
            push_escaped(out, attr.as_slice(), true);
            push_str(out, "\">");
            push_escaped(out, run.text.as_str().as_bytes(), true);
            push_str(out, "</span>");
            proof {
                assert(final(out)@ =~= old(out)@ + run_html(run@));
            }
        },
        None => {
            push_escaped(out, run.text.as_str().as_bytes(), true);
        },
    }
}

/// Markup of a sequence of runs.
pub fn render_runs(runs: &Vec<StyledText>) -> (r: Vec<u8>)
    ensures
        r@ == runs_html(runs@.map_values(|t: StyledText| t@)),
{
    let mut out: Vec<u8> = Vec::new();
    let mut i: usize = 0;
    while i < runs.len()
        invariant
            i <= runs@.len(),
            out@ == runs_html(runs@.subrange(0, i as int).map_values(|t: StyledText| t@)),
        decreases runs@.len() - i,
    {
        push_run(&mut out, &runs[i]);
        proof {
            let prev = runs@.subrange(0, i as int).map_values(|t: StyledText| t@);
            let next = runs@.subrange(0, i + 1).map_values(|t: StyledText| t@);
            assert(next.drop_last() =~= prev);
            assert(next.last() == runs@[i as int]@);
        }
        i += 1;
    }
    proof {
        assert(runs@.subrange(0, runs@.len() as int) =~= runs@);
    }
    out
}

impl CodeHighlighter {
    /// A highlighter over giallo's bundled grammars and themes.
    pub fn new() -> (r: Result<CodeHighlighter, giallo::Error>) {
        match builtin_registry() {
            Ok(registry) => {
                let mut registry = registry;
                link_grammars(&mut registry);
                Ok(CodeHighlighter { registry })
            },
            Err(e) => Err(e),
        }
    }

    /// The stylesheet for the classes of highlighted code.
    pub fn generate_css(&self) -> (r: Result<String, giallo::Error>) {
        registry_css(&self.registry)
    }

    /// Highlights a single line of code, returning just the styled spans:
    /// the markup of the runs giallo gives for it, or `None` where giallo
    /// cannot highlight the language.
    pub fn highlight_line(&self, line: &str, language: &str) -> (r: Option<String>)
        ensures
            r matches Some(s) ==> exists|runs: Seq<(Seq<char>, Option<(Seq<char>, bool, bool)>)>|
                s@ == decode_utf8(#[trigger] runs_html(runs)),
    {
        match giallo_runs(self, line, language) {
            Some(runs) => {
                let v = render_runs(&runs);
                proof {
                    lemma_runs_valid(runs@.map_values(|t: StyledText| t@));
                }
                Some(utf8_to_string(v.as_slice()))
            },
            None => None,
        }
    }
}

/// What `str::to_lowercase` gives for `s`.
pub uninterp spec fn lower_of(s: Seq<char>) -> Seq<char>;

/// What `str::to_uppercase` gives for `s`.
pub uninterp spec fn upper_of(s: Seq<char>) -> Seq<char>;

/// Relies on `str::to_lowercase`: the result depends on the characters alone.
#[verifier::external_body]
fn lowercase(s: &str) -> (r: String)
    ensures
        r@ == lower_of(s@),
{
    s.to_lowercase()
}

/// Relies on `str::to_uppercase`: the result depends on the characters alone.
#[verifier::external_body]
fn uppercase(s: &str) -> (r: String)
    ensures
        r@ == upper_of(s@),
{
    s.to_uppercase()
}

/// Whether two strings hold the same characters.
pub fn str_eq(a: &str, b: &str) -> (r: bool)
    ensures
        r == (a@ == b@),
{
    let x = a.as_bytes();
    let y = b.as_bytes();
    assert(x@ == encode_utf8(a@));
    assert(y@ == encode_utf8(b@));
    if x.len() != y.len() {
        proof {
            if a@ == b@ {
                assert(x@ == y@);
            }
        }
        return false;
    }
    let mut i: usize = 0;
    while i < x.len()
        invariant
            i <= x@.len(),
            x@.len() == y@.len(),
            x@ == encode_utf8(a@),
            y@ == encode_utf8(b@),
            forall|j: int| 0 <= j < i ==> x@[j] == y@[j],
        decreases x@.len() - i,
    {
        if x[i] != y[i] {
            proof {
                if a@ == b@ {
                    assert(x@ == y@);
                }
            }
            return false;
        }
        i += 1;
    }
    proof {
        assert(x@ =~= y@);
        assert(decode_utf8(encode_utf8(a@)) == decode_utf8(encode_utf8(b@)));
    }
    true
}

/// The display name of a lower-cased language tag that has one.
pub open spec fn known_language_name(l: Seq<char>) -> Option<Seq<char>> {
    if l == "toml"@ {
        Some("TOML"@)
    } else if l == "yaml"@ {
        Some("YAML"@)
    } else if l == "json"@ {
        Some("JSON"@)
    } else if l == "html"@ {
        Some("HTML"@)
    } else if l == "css"@ {
        Some("CSS"@)
    } else if l == "sql"@ {
        Some("SQL"@)
    } else if l == "xml"@ {
        Some("XML"@)
    } else if l == "rust"@ {
        Some("Rust"@)
    } else if l == "bash"@ {
        Some("Bash"@)
    } else if l == "shellscript"@ {
        Some("Bash"@)
    } else if l == "shell"@ {
        Some("Bash"@)
    } else if l == "sh"@ {
        Some("Bash"@)
    } else if l == "javascript"@ {
        Some("JavaScript"@)
    } else if l == "js"@ {
        Some("JavaScript"@)
    } else if l == "typescript"@ {
        Some("TypeScript"@)
    } else if l == "ts"@ {
        Some("TypeScript"@)
    } else if l == "python"@ {
        Some("Python"@)
    } else if l == "py"@ {
        Some("Python"@)
    } else if l == "ruby"@ {
        Some("Ruby"@)
    } else if l == "rb"@ {
        Some("Ruby"@)
    } else if l == "go"@ {
        Some("Go"@)
    } else if l == "golang"@ {
        Some("Go"@)
    } else if l == "java"@ {
        Some("Java"@)
    } else if l == "kotlin"@ {
        Some("Kotlin"@)
    } else if l == "swift"@ {
        Some("Swift"@)
    } else if l == "c"@ {
        Some("C"@)
    } else if l == "cpp"@ {
        Some("C++"@)
    } else if l == "c++"@ {
        Some("C++"@)
    } else if l == "csharp"@ {
        Some("C#"@)
    } else if l == "c#"@ {
        Some("C#"@)
    } else if l == "php"@ {
        Some("PHP"@)
    } else if l == "perl"@ {
        Some("Perl"@)
    } else if l == "lua"@ {
        Some("Lua"@)
    } else if l == "r"@ {
        Some("R"@)
    } else if l == "scala"@ {
        Some("Scala"@)
    } else if l == "haskell"@ {
        Some("Haskell"@)
    } else if l == "elixir"@ {
        Some("Elixir"@)
    } else if l == "erlang"@ {
        Some("Erlang"@)
    } else if l == "clojure"@ {
        Some("Clojure"@)
    } else if l == "markdown"@ {
        Some("Markdown"@)
    } else if l == "md"@ {
        Some("Markdown"@)
    } else if l == "dockerfile"@ {
        Some("Dockerfile"@)
    } else if l == "makefile"@ {
        Some("Makefile"@)
    } else {
        None
    }
}

/// The display name of a lower-cased language tag, where it has one.
pub fn known_name(l: &str) -> (r: Option<&'static str>)
    ensures
        match r {
            Some(n) => known_language_name(l@) == Some(n@),
            None => known_language_name(l@) is None,
        },
{
    if str_eq(l, "toml") {
        Some("TOML")
    } else if str_eq(l, "yaml") {
        Some("YAML")
    } else if str_eq(l, "json") {
        Some("JSON")
    } else if str_eq(l, "html") {
        Some("HTML")
    } else if str_eq(l, "css") {
        Some("CSS")
    } else if str_eq(l, "sql") {
        Some("SQL")
    } else if str_eq(l, "xml") {
        Some("XML")
    } else if str_eq(l, "rust") {
        Some("Rust")
    } else if str_eq(l, "bash") {
        Some("Bash")
    } else if str_eq(l, "shellscript") {
        Some("Bash")
    } else if str_eq(l, "shell") {
        Some("Bash")
    } else if str_eq(l, "sh") {
        Some("Bash")
    } else if str_eq(l, "javascript") {
        Some("JavaScript")
    } else if str_eq(l, "js") {
        Some("JavaScript")
    } else if str_eq(l, "typescript") {
        Some("TypeScript")
    } else if str_eq(l, "ts") {
        Some("TypeScript")
    } else if str_eq(l, "python") {
        Some("Python")
    } else if str_eq(l, "py") {
        Some("Python")
    } else if str_eq(l, "ruby") {
        Some("Ruby")
    } else if str_eq(l, "rb") {
        Some("Ruby")
    } else if str_eq(l, "go") {
        Some("Go")
    } else if str_eq(l, "golang") {
        Some("Go")
    } else if str_eq(l, "java") {
        Some("Java")
    } else if str_eq(l, "kotlin") {
        Some("Kotlin")
    } else if str_eq(l, "swift") {
        Some("Swift")
    } else if str_eq(l, "c") {
        Some("C")
    } else if str_eq(l, "cpp") {
        Some("C++")
    } else if str_eq(l, "c++") {
        Some("C++")
    } else if str_eq(l, "csharp") {
        Some("C#")
    } else if str_eq(l, "c#") {
        Some("C#")
    } else if str_eq(l, "php") {
        Some("PHP")
    } else if str_eq(l, "perl") {
        Some("Perl")
    } else if str_eq(l, "lua") {
        Some("Lua")
    } else if str_eq(l, "r") {
        Some("R")
    } else if str_eq(l, "scala") {
        Some("Scala")
    } else if str_eq(l, "haskell") {
        Some("Haskell")
    } else if str_eq(l, "elixir") {
        Some("Elixir")
    } else if str_eq(l, "erlang") {
        Some("Erlang")
    } else if str_eq(l, "clojure") {
        Some("Clojure")
    } else if str_eq(l, "markdown") {
        Some("Markdown")
    } else if str_eq(l, "md") {
        Some("Markdown")
    } else if str_eq(l, "dockerfile") {
        Some("Dockerfile")
    } else if str_eq(l, "makefile") {
        Some("Makefile")
    } else {
        None
    }
}

/// The name under which a language is shown: a known name for its
/// lower-cased tag, else the tag in upper case.
pub open spec fn language_display_name(lang: Seq<char>) -> Seq<char> {
    match known_language_name(lower_of(lang)) {
        Some(n) => n,
        None => upper_of(lang),
    }
}

/// Formats a language name for display in a badge.
pub fn format_language_name(lang: &str) -> (r: String)
    ensures
        r@ == language_display_name(lang@),
{
    let lower = lowercase(lang);
    match known_name(lower.as_str()) {
        Some(n) => n.to_owned(),
        None => uppercase(lang),
    }
}

/// The opening tag of giallo's block markup that gets the badge.
pub open spec fn giallo_pre() -> Seq<u8> {
    "<pre class=\"giallo hl-code\">".spec_bytes()
}

/// The opening tag with the language's display name added.
pub open spec fn giallo_pre_with_lang(lang: Seq<char>) -> Seq<u8> {
    "<pre class=\"giallo hl-code\" data-language=\"".spec_bytes() + encode_utf8(
        language_display_name(lang),
    ) + "\">".spec_bytes()
}

/// `pat` occurs in `s` at `p`.
pub open spec fn occurs_at(s: Seq<u8>, pat: Seq<u8>, p: int) -> bool {
    0 <= p && p + pat.len() <= s.len() && s.subrange(p, p + pat.len()) == pat
}

/// First position from `p` where `pat` occurs in `s`.
pub open spec fn first_occurrence(s: Seq<u8>, pat: Seq<u8>, p: int) -> Option<int>
    decreases s.len() - p,
{
    if p < 0 || p + pat.len() > s.len() {
        None
    } else if occurs_at(s, pat, p) {
        Some(p)
    } else if p < s.len() {
        first_occurrence(s, pat, p + 1)
    } else {
        None
    }
}

/// `s` with its first occurrence of `pat` replaced by `rep`.
/// Where the occurrence would split a character, `s` stays as it is.
pub open spec fn replaced_first(s: Seq<u8>, pat: Seq<u8>, rep: Seq<u8>) -> Seq<u8> {
    match first_occurrence(s, pat, 0) {
        Some(p) => if is_char_boundary(s, p) && is_char_boundary(s, p + pat.len()) {
            s.subrange(0, p) + rep + s.subrange(p + pat.len(), s.len() as int)
        } else {
            s
        },
        None => s,
    }
}

fn occurs_at_exec(s: &[u8], pat: &[u8], p: usize) -> (r: bool)
    requires
        p <= s@.len(),
        pat@.len() <= s@.len() - p,
    ensures
        r == occurs_at(s@, pat@, p as int),
{
    let slen = s.len();
    let mut k: usize = 0;
    while k < pat.len()
        invariant
            k <= pat@.len(),
            slen == s@.len(),
            p + pat@.len() <= s@.len(),
            forall|m: int| 0 <= m < k ==> s@[p + m] == pat@[m],
        decreases pat@.len() - k,
    {
        if s[p + k] != pat[k] {
            assert(s@.subrange(p as int, p + pat@.len())[k as int] != pat@[k as int]);
            return false;
        }
        k += 1;
    }
    assert(s@.subrange(p as int, p + pat@.len()) =~= pat@);
    true
}

fn find_first(s: &[u8], pat: &[u8]) -> (r: Option<usize>)
    ensures
        match r {
            Some(q) => first_occurrence(s@, pat@, 0) == Some(q as int) && q + pat@.len() <= s@.len(),
            None => first_occurrence(s@, pat@, 0) is None,
        },
{
    let mut p: usize = 0;
    while pat.len() <= s.len() - p
        invariant
            p <= s@.len(),
            first_occurrence(s@, pat@, 0) == first_occurrence(s@, pat@, p as int),
        decreases s@.len() - p,
    {
        if occurs_at_exec(s, pat, p) {
            return Some(p);
        }
        assert(pat@.len() > 0) by {
            if pat@.len() == 0 {
                assert(s@.subrange(p as int, p as int) =~= pat@);
            }
        }
        p += 1;
    }
    None
}

/// Replaces the first occurrence of `pat` in `text` by `rep`.
pub fn replace_first(text: &str, pat: &[u8], rep: &[u8]) -> (r: Vec<u8>)
    ensures
        r@ == replaced_first(text.spec_bytes(), pat@, rep@),
{
    let s = text.as_bytes();
    let found = find_first(s, pat);
    let slen = s.len();
    let mut out: Vec<u8> = Vec::new();
    match found {
        Some(q) if text.is_char_boundary(q) && text.is_char_boundary(q + pat.len()) => {
            push_bytes(&mut out, slice_prefix(s, q));
            push_bytes(&mut out, rep);
            push_bytes(&mut out, slice_from(s, q + pat.len()));
            proof {
                assert(out@ =~= replaced_first(s@, pat@, rep@));
            }
        },
        _ => {
            push_bytes(&mut out, s);
        },
    }
    out
}

fn slice_prefix(s: &[u8], n: usize) -> (r: &[u8])
    requires
        n <= s@.len(),
    ensures
        r@ == s@.subrange(0, n as int),
{
    let (a, _) = s.split_at(n);
    a
}

fn slice_from(s: &[u8], n: usize) -> (r: &[u8])
    requires
        n <= s@.len(),
    ensures
        r@ == s@.subrange(n as int, s@.len() as int),
{
    let (_, b) = s.split_at(n);
    b
}

/// Markup of a highlighted block of code, given the markup `answer` that
/// giallo gave for it: giallo's markup, its first
/// `<pre class="giallo hl-code">` tag (where it has one) given the
/// language's display name as `data-language`; or, where giallo cannot
/// highlight the language, the escaped code in a plain block.
pub open spec fn block_html(code: Seq<char>, lang: Seq<char>, answer: Option<Seq<u8>>) -> Seq<u8> {
    match answer {
        Some(h) => replaced_first(h, giallo_pre(), giallo_pre_with_lang(lang)),
        None => "<pre class=\"code-block\" data-language=\"".spec_bytes() + escaped(
            encode_utf8(language_display_name(lang)),
            true,
        ) + "\"><code>".spec_bytes() + escaped(encode_utf8(code), true)
            + "</code></pre>".spec_bytes(),
    }
}

/// Markup bytes of a highlighted block of code, given the markup that
/// giallo gave for it (`None` where it could not highlight the language).
pub fn block_markup_from(code: &str, language: &str, answer: &Option<String>) -> (r: Vec<u8>)
    ensures
        r@ == block_html(code@, language@, answer_bytes(*answer)),
{
    let display = format_language_name(language);
    let mut out: Vec<u8> = Vec::new();
    match answer {
        Some(html) => {
            let mut rep: Vec<u8> = Vec::new();
            push_str(&mut rep, "<pre class=\"giallo hl-code\" data-language=\"");
            push_str(&mut rep, display.as_str());
            push_str(&mut rep, "\">");
            let pre = "<pre class=\"giallo hl-code\">".as_bytes();
            out = replace_first(html.as_str(), pre, rep.as_slice());
        },
        None => {
            push_str(&mut out, "<pre class=\"code-block\" data-language=\"");
            push_escaped(&mut out, display.as_str().as_bytes(), true);
            push_str(&mut out, "\"><code>");
            push_escaped(&mut out, code.as_bytes(), true);
            push_str(&mut out, "</code></pre>");
        },
    }
    out
}

/// The bytes of an answer given as a string.
pub open spec fn answer_bytes(o: Option<String>) -> Option<Seq<u8>> {
    match o {
        Some(s) => Some(encode_utf8(s@)),
        None => None,
    }
}

/// Every answer is valid UTF-8.
pub open spec fn answers_ok(g: Answers) -> bool {
    forall|k: bool, t: Seq<char>, l: Seq<char>|
        #[trigger] g(k, t, l) matches Some(v) ==> valid_utf8(v)
}

/// What giallo answered during one rendering: for a block (`true`) or a
/// line (`false`) of text in a language, its markup, or `None` where giallo
/// could not highlight it.
pub type Answers = spec_fn(bool, Seq<char>, Seq<char>) -> Option<Seq<u8>>;

/// One answer of giallo kept for the rest of a rendering.
pub struct HlEntry {
    pub block: bool,
    pub text: String,
    pub lang: String,
    pub out: Option<String>,
}

/// The answers giallo gave so far in one rendering, so that the same
/// question is asked once and every part of the output rests on one answer.
pub struct HighlightCache {
    pub entries: Vec<HlEntry>,
}

/// The answer kept for a question, where there is one.
pub open spec fn lookup(es: Seq<HlEntry>, k: bool, t: Seq<char>, l: Seq<char>) -> Option<Seq<u8>>
    decreases es.len(),
{
    if es.len() == 0 {
        None
    } else if es.last().block == k && es.last().text@ == t && es.last().lang@ == l {
        answer_bytes(es.last().out)
    } else {
        lookup(es.drop_last(), k, t, l)
    }
}

impl HighlightCache {
    /// No question is kept twice.
    pub open spec fn wf(&self) -> bool {
        forall|i: int, j: int|
            0 <= i < j < self.entries@.len() ==> !(#[trigger] self.entries@[i].block
                == #[trigger] self.entries@[j].block && self.entries@[i].text@
                == self.entries@[j].text@ && self.entries@[i].lang@ == self.entries@[j].lang@)
    }

    /// `g` gives every kept answer.
    pub open spec fn agrees(&self, g: Answers) -> bool {
        forall|i: int|
            0 <= i < self.entries@.len() ==> g(
                (#[trigger] self.entries@[i]).block,
                self.entries@[i].text@,
                self.entries@[i].lang@,
            ) == answer_bytes(self.entries@[i].out)
    }

    /// This cache keeps every answer of `old`.
    pub open spec fn extends(&self, old: HighlightCache) -> bool {
        &&& old.entries@.len() <= self.entries@.len()
        &&& forall|i: int|
            0 <= i < old.entries@.len() ==> #[trigger] self.entries@[i] == old.entries@[i]
    }

    /// The answers kept, as a function.
    pub open spec fn answers(&self) -> Answers {
        |k: bool, t: Seq<char>, l: Seq<char>| lookup(self.entries@, k, t, l)
    }

    /// An empty cache.
    pub fn new() -> (r: HighlightCache)
        ensures
            r.wf(),
            r.entries@.len() == 0,
    {
        HighlightCache { entries: Vec::new() }
    }

    /// Asks giallo once for a block (`block`) or a line of `text` in
    /// `lang`, answering from what is kept where the question was asked
    /// before.
    pub fn answer(&mut self, h: &CodeHighlighter, block: bool, text: &str, lang: &str) -> (r:
        Option<String>)
        requires
            old(self).wf(),
        ensures
            final(self).wf(),
            final(self).extends(*old(self)),
            forall|g: Answers| #[trigger] final(self).agrees(g) ==> g(block, text@, lang@)
                == answer_bytes(r),
    {
        let mut i: usize = 0;
        while i < self.entries.len()
            invariant
                i <= self.entries@.len(),
                *self == *old(self),
                self.wf(),
                forall|j: int|
                    0 <= j < i ==> !(#[trigger] self.entries@[j].block == block
                        && self.entries@[j].text@ == text@ && self.entries@[j].lang@ == lang@),
            decreases self.entries@.len() - i,
        {
            let e = &self.entries[i];
            if e.block == block && str_eq(e.text.as_str(), text) && str_eq(e.lang.as_str(), lang) {
                let r = match &e.out {
                    Some(s) => Some(s.clone()),
                    None => None,
                };
                proof {
                    assert forall|j: int| 0 <= j < old(self).entries@.len() implies #[trigger] self.entries@[j]
                        == old(self).entries@[j] by {}
                    assert forall|g: Answers| #[trigger] self.agrees(g) implies g(
                        block,
                        text@,
                        lang@,
                    ) == answer_bytes(r) by {
                        assert(self.entries@[i as int] == *e);
                    }
                }
                return r;
            }
            i += 1;
        }
        let r: Option<String> = if block {
            giallo_render_block(h, text, lang)
        } else {
            match giallo_runs(h, text, lang) {
                Some(runs) => {
                    let v = render_runs(&runs);
                    Some(utf8_to_string(v.as_slice()))
                },
                None => None,
            }
        };
        let r2: Option<String> = match &r {
            Some(s) => Some(s.clone()),
            None => None,
        };
        let ghost before = self.entries@;
        self.entries.push(HlEntry { block, text: text.to_owned(), lang: lang.to_owned(), out: r2 });
        proof {
            assert forall|g: Answers| #[trigger] self.agrees(g) implies g(block, text@, lang@)
                == answer_bytes(r) by {
                assert(self.entries@[before.len() as int].block == block);
            }
            assert forall|a: int, b: int|
                0 <= a < b < self.entries@.len() implies !(#[trigger] self.entries@[a].block
                == #[trigger] self.entries@[b].block && self.entries@[a].text@
                == self.entries@[b].text@ && self.entries@[a].lang@ == self.entries@[b].lang@) by {
                if b < before.len() {
                    assert(self.entries@[a] == before[a] && self.entries@[b] == before[b]);
                } else {
                    assert(self.entries@[a] == before[a]);
                }
            }
            assert forall|j: int| 0 <= j < before.len() implies #[trigger] self.entries@[j]
                == before[j] by {}
        }
        r
    }
}

/// A cache that keeps the answers of another agrees with fewer answers.
pub proof fn lemma_agrees_prefix(new: HighlightCache, old: HighlightCache, g: Answers)
    requires
        new.extends(old),
        new.agrees(g),
    ensures
        old.agrees(g),
{
    assert forall|i: int| 0 <= i < old.entries@.len() implies g(
        (#[trigger] old.entries@[i]).block,
        old.entries@[i].text@,
        old.entries@[i].lang@,
    ) == answer_bytes(old.entries@[i].out) by {
        assert(new.entries@[i] == old.entries@[i]);
    }
}

/// Keeping more answers keeps every earlier one.
pub proof fn lemma_extends_trans(a: HighlightCache, b: HighlightCache, c: HighlightCache)
    requires
        c.extends(b),
        b.extends(a),
    ensures
        c.extends(a),
{
    assert forall|i: int| 0 <= i < a.entries@.len() implies #[trigger] c.entries@[i]
        == a.entries@[i] by {
        assert(c.entries@[i] == b.entries@[i]);
    }
}

/// The kept answers, as a function, give every kept answer, and all of
/// them are valid UTF-8.
pub proof fn lemma_cache_answers(c: HighlightCache)
    requires
        c.wf(),
    ensures
        c.agrees(c.answers()),
        answers_ok(c.answers()),
{
    lemma_lookup(c.entries@);
    assert forall|i: int| 0 <= i < c.entries@.len() implies (c.answers())(
        (#[trigger] c.entries@[i]).block,
        c.entries@[i].text@,
        c.entries@[i].lang@,
    ) == answer_bytes(c.entries@[i].out) by {
        lemma_lookup_at(c.entries@, i);
    }
}

proof fn lemma_lookup(es: Seq<HlEntry>)
    ensures
        forall|k: bool, t: Seq<char>, l: Seq<char>|
            #[trigger] lookup(es, k, t, l) matches Some(v) ==> valid_utf8(v),
    decreases es.len(),
{
    lemma_valid_parts();
    if es.len() > 0 {
        lemma_lookup(es.drop_last());
        assert forall|k: bool, t: Seq<char>, l: Seq<char>|
            #[trigger] lookup(es, k, t, l) is Some implies valid_utf8(lookup(es, k, t, l)->0) by {
            if !(es.last().block == k && es.last().text@ == t && es.last().lang@ == l) {
                assert(lookup(es, k, t, l) == lookup(es.drop_last(), k, t, l));
            }
        }
    }
}

proof fn lemma_lookup_at(es: Seq<HlEntry>, i: int)
    requires
        0 <= i < es.len(),
        forall|a: int, b: int|
            0 <= a < b < es.len() ==> !(#[trigger] es[a].block == #[trigger] es[b].block
                && es[a].text@ == es[b].text@ && es[a].lang@ == es[b].lang@),
    ensures
        lookup(es, es[i].block, es[i].text@, es[i].lang@) == answer_bytes(es[i].out),
    decreases es.len(),
{
    if i < es.len() - 1 {
        let d = es.drop_last();
        assert(d[i] == es[i]);
        assert forall|a: int, b: int| 0 <= a < b < d.len() implies !(#[trigger] d[a].block
            == #[trigger] d[b].block && d[a].text@ == d[b].text@ && d[a].lang@ == d[b].lang@) by {
            assert(d[a] == es[a] && d[b] == es[b]);
        }
        lemma_lookup_at(d, i);
        assert(es[i].block == es[es.len() - 1].block ==> !(es[i].text@ == es.last().text@
            && es[i].lang@ == es.last().lang@));
    }
}

impl CodeHighlighter {
    /// Highlights a block of code in `language`; where giallo cannot, the
    /// code is shown escaped in a plain block.
    pub fn highlight(&self, code: &str, language: &str) -> (r: String)
        ensures
            exists|o: Option<Seq<u8>>|
                (o matches Some(v) ==> valid_utf8(v)) && r@ == decode_utf8(
                    #[trigger] block_html(code@, language@, o),
                ),
    {
        let answer = giallo_render_block(self, code, language);
        let out = block_markup_from(code, language, &answer);
        proof {
            lemma_valid_parts();
            lemma_block_valid(code@, language@, answer_bytes(answer));
        }
        utf8_to_string(out.as_slice())
    }
}

/// The markup of a run is valid UTF-8.
pub proof fn lemma_run_valid(run: (Seq<char>, Option<(Seq<char>, bool, bool)>))
    ensures
        valid_utf8(run_html(run)),
{
    lemma_valid_parts();
}

/// The markup of a sequence of runs is valid UTF-8.
pub proof fn lemma_runs_valid(runs: Seq<(Seq<char>, Option<(Seq<char>, bool, bool)>)>)
    ensures
        valid_utf8(runs_html(runs)),
    decreases runs.len(),
{
    lemma_valid_parts();
    if runs.len() > 0 {
        lemma_runs_valid(runs.drop_last());
        lemma_run_valid(runs.last());
    }
}

/// The markup of a highlighted block is valid UTF-8.
pub proof fn lemma_block_valid(code: Seq<char>, lang: Seq<char>, answer: Option<Seq<u8>>)
    requires
        answer matches Some(v) ==> valid_utf8(v),
    ensures
        valid_utf8(block_html(code, lang, answer)),
{
    lemma_valid_parts();
    match answer {
        Some(h) => {
            let s = h;
            let pat = giallo_pre();
            match first_occurrence(s, pat, 0) {
                Some(p) => {
                    if is_char_boundary(s, p) && is_char_boundary(s, p + pat.len()) {
                        lemma_first_occurrence_range(s, pat, 0);
                        is_char_boundary_start_end_of_seq(s);
                        lemma_slice_valid(s, 0, p);
                        lemma_slice_valid(s, p + pat.len(), s.len() as int);
                    }
                },
                None => {},
            }
        },
        None => {},
    }
}

proof fn lemma_first_occurrence_range(s: Seq<u8>, pat: Seq<u8>, p: int)
    ensures
        first_occurrence(s, pat, p) matches Some(q) ==> p <= q && q + pat.len() <= s.len(),
    decreases s.len() - p,
{
    if !(p < 0 || p + pat.len() > s.len()) && !occurs_at(s, pat, p) && p < s.len() {
        lemma_first_occurrence_range(s, pat, p + 1);
    }
}

} // verus!
