//! The typed, depth-limited document tree: an article, its sections of
//! depth two to six, and their leaves.
use vstd::prelude::*;

verus! {

/// Kinds of alert boxes.
#[derive(Debug, Clone, Copy, PartialEq, Eq, Structural)]
pub enum AlertType {
    Note,
    Tip,
    Important,
    Warning,
    Caution,
}

/// Visual markers on a text leaf.
#[derive(Debug, Clone, Copy, PartialEq, Eq, Structural)]
pub struct MarkOptions {
    pub alert: Option<AlertType>,
    /// The leaf is raw HTML, emitted as it is; only for `html` leaves.
    pub dangerously_inner_html: bool,
}

/// The language tag of a text.
#[derive(Debug, Clone, PartialEq, Eq)]
pub enum Language {
    /// No tag: plain text.
    Plaintext,
    /// Inline code without a tag.
    Implicit,
    /// A named language.
    Other(String),
}

/// A text with its language tag.
#[derive(Debug, Clone, PartialEq, Eq)]
pub struct Text {
    pub content: String,
    pub language: Language,
}

/// Entry of a table of contents.
#[derive(Debug)]
pub struct TocEntry {
    pub id: String,
    pub title: String,
    pub level: u8,
    pub children: Vec<TocEntry>,
}

/// A value, a list of values, or the place of the table of contents.
#[derive(Debug, Clone)]
pub enum Item<T> {
    Normal(T),
    List(Vec<T>),
    Toc(Toc),
}

/// The mark that places the table of contents.
#[derive(Debug, Clone, Copy, PartialEq, Eq, Structural)]
pub struct Toc {
    pub toc: bool,
}

/// A text leaf with its marks, or a nested section.
#[derive(Debug, Clone)]
pub enum TextOrNested<T> {
    Text { text: Text, mark: MarkOptions },
    Nested(T),
}

/// A section of depth two.
///
/// The items of a section are an ordered list of key and item pairs, kept
/// in the order they were written. A key may occur twice: where that makes
/// a section id repeat anywhere in the tree, building the table of contents
/// fails with `DuplicateSectionId`.
#[derive(Debug, Clone)]
pub struct Level2 {
    pub header: Text,
    pub sections: Vec<(String, Item<TextOrNested<Level3>>)>,
}

/// A section of depth three.
#[derive(Debug, Clone)]
pub struct Level3 {
    pub header: Text,
    pub sections: Vec<(String, Item<TextOrNested<Level4>>)>,
}

/// A section of depth four.
#[derive(Debug, Clone)]
pub struct Level4 {
    pub header: Text,
    pub sections: Vec<(String, Item<TextOrNested<Level5>>)>,
}

/// A section of depth five.
#[derive(Debug, Clone)]
pub struct Level5 {
    pub header: Text,
    pub sections: Vec<(String, Item<TextOrNested<Level6>>)>,
}

/// A section of depth six: it holds text leaves only.
#[derive(Debug, Clone)]
pub struct Level6 {
    pub header: Text,
    pub sections: Vec<(String, Item<Text>)>,
}

/// Metadata of an article.
#[derive(Debug, Clone)]
pub struct Frontmatter {
    pub title: Text,
    pub description: Text,
    pub date: Option<Text>,
    pub tags: Vec<String>,
    pub draft: bool,
}

/// An article: metadata, a header, and its sections of depth two in the
/// order they were written (keys may repeat; see `Level2`).
#[derive(Debug, Clone)]
pub struct Article {
    pub frontmatter: Frontmatter,
    pub header: Text,
    pub sections: Vec<(String, Item<TextOrNested<Level2>>)>,
}

/// Why an article cannot be rendered.
#[derive(Debug, Clone, PartialEq, Eq)]
pub enum ArticleError {
    /// A section id occurs twice in the tree.
    DuplicateSectionId(String),
    /// A leaf marked as raw HTML is not tagged `html`.
    RawHtmlNotHtml,
}

} // verus!
