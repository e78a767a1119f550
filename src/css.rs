//! The stylesheets: one class per token type and modifier of Eure
//! highlighting, and the site's main styles.
use vstd::prelude::*;

verus! {

/// Styles of Eure highlighting: one class per token type and modifier.
pub const EURE_CSS: &'static str = r#"/* Eure Syntax Highlighting - Catppuccin Mocha */
.eure-source {
    background-color: #1e1e2e;
    color: #cdd6f4;
    padding: 1rem;
    border-radius: 0.5rem;
    overflow-x: auto;
    font-family: 'JetBrains Mono', 'Fira Code', monospace;
    font-size: 0.9rem;
    line-height: 1.5;
}

.eure-keyword { color: #cba6f7; } /* mauve */
.eure-number { color: #fab387; } /* peach */
.eure-string { color: #a6e3a1; } /* green */
.eure-comment { color: #6c7086; font-style: italic; } /* overlay0 */
.eure-operator { color: #89dceb; } /* sky */
.eure-property { color: #89b4fa; } /* blue */
.eure-punctuation { color: #9399b2; } /* overlay2 */
.eure-macro { color: #f38ba8; } /* red */
.eure-decorator { color: #f9e2af; } /* yellow */
.eure-section-marker { color: #f5c2e7; font-weight: bold; } /* pink */
.eure-extension-marker { color: #94e2d5; } /* teal */
.eure-extension-ident { color: #94e2d5; } /* teal */

/* Modifiers */
.eure-mod-declaration { font-weight: 600; }
.eure-mod-definition { font-weight: bold; }
.eure-mod-section-header { text-decoration: underline; }

/* Line numbers and wrap (source page only) */
.eure-source-with-lines {
    counter-reset: line;
    white-space: pre-wrap;
    word-break: break-all;
    padding: 0;
    margin: 0;
    overflow: visible;
}

.eure-source-with-lines code {
    display: block;
    padding: 0;
    margin: 0;
}

.eure-source-with-lines .line {
    display: block;
    counter-increment: line;
    position: relative;
    min-height: 1.5em;
}

.eure-source-with-lines .line::before {
    content: counter(line);
    position: absolute;
    right: 100%;
    width: 3em;
    margin-right: 0.5em;
    text-align: right;
    color: #6c7086;
    user-select: none;
}

"#;

/// The site's main styles.
pub const MAIN_CSS: &'static str = r#"/* Main Styles - Catppuccin Mocha Theme */
:root {
    --ctp-base: #1e1e2e;
    --ctp-mantle: #181825;
    --ctp-crust: #11111b;
    --ctp-surface0: #313244;
    --ctp-surface1: #45475a;
    --ctp-surface2: #585b70;
    --ctp-overlay0: #6c7086;
    --ctp-overlay1: #7f849c;
    --ctp-overlay2: #9399b2;
    --ctp-text: #cdd6f4;
    --ctp-subtext0: #a6adc8;
    --ctp-subtext1: #bac2de;
    --ctp-lavender: #b4befe;
    --ctp-blue: #89b4fa;
    --ctp-sapphire: #74c7ec;
    --ctp-sky: #89dceb;
    --ctp-teal: #94e2d5;
    --ctp-green: #a6e3a1;
    --ctp-yellow: #f9e2af;
    --ctp-peach: #fab387;
    --ctp-maroon: #eba0ac;
    --ctp-red: #f38ba8;
    --ctp-mauve: #cba6f7;
    --ctp-pink: #f5c2e7;
    --ctp-flamingo: #f2cdcd;
    --ctp-rosewater: #f5e0dc;
}

* {
    box-sizing: border-box;
    margin: 0;
    padding: 0;
}

html {
    font-size: 16px;
    line-height: 1.6;
}

body {
    font-family: -apple-system, BlinkMacSystemFont, 'Segoe UI', Roboto, Oxygen, Ubuntu, sans-serif;
    background-color: var(--ctp-base);
    color: var(--ctp-text);
    min-height: 100vh;
    display: flex;
    flex-direction: column;
}

a {
    color: var(--ctp-blue);
    text-decoration: none;
}

a:hover {
    text-decoration: underline;
}

/* Site Header */
.site-header {
    background-color: var(--ctp-mantle);
    padding: 1rem 2rem;
    border-bottom: 1px solid var(--ctp-surface0);
}

.site-nav {
    max-width: 900px;
    margin: 0 auto;
    display: flex;
    justify-content: space-between;
    align-items: center;
}

.header-left {
    display: flex;
    align-items: flex-end;
    gap: 1rem;
}

.divider {
    width: 1px;
    height: 2rem;
    background-color: currentColor;
    opacity: 0.3;
    transform: translateY(0.25rem);
}

.eure-logo {
    display: flex;
    align-items: center;
    transition: opacity 0.2s;
}

.eure-logo:hover {
    opacity: 0.8;
}

.eure-logo img {
    height: 32px;
}

.header-nav-links {
    display: flex;
    align-items: center;
    gap: 1rem;
}

.header-nav-links a {
    color: var(--ctp-text);
    transition: opacity 0.2s;
}

.header-nav-links a:hover {
    opacity: 0.8;
    text-decoration: none;
}

.github-link {
    display: flex;
    align-items: center;
}

.site-title {
    font-size: 1.7rem;
    font-weight: bold;
    line-height: 1;
    color: var(--ctp-mauve);
}

.site-title:hover {
    color: var(--ctp-pink);
    text-decoration: none;
}

/* Site Main */
.site-main {
    flex: 1;
    max-width: 900px;
    margin: 0 auto;
    padding: 2rem;
    width: 100%;
}

/* Site Footer */
.site-footer {
    background-color: var(--ctp-mantle);
    padding: 1rem 2rem;
    text-align: center;
    border-top: 1px solid var(--ctp-surface0);
    color: var(--ctp-overlay1);
}

/* Index Page */
.index-page {
    padding: 1rem 0;
}

.page-title {
    font-size: 2rem;
    margin-bottom: 2rem;
    color: var(--ctp-mauve);
}

.article-list {
    list-style: none;
}

.article-list-item {
    padding: 1rem 0;
    border-bottom: 1px solid var(--ctp-surface0);
}

.article-list-item:last-child {
    border-bottom: none;
}

.article-link {
    display: block;
    margin-bottom: 0.5rem;
}

.article-link .article-title {
    font-size: 1.25rem;
    color: var(--ctp-text);
}

.article-link:hover .article-title {
    color: var(--ctp-blue);
}

.article-date {
    color: var(--ctp-overlay1);
    font-size: 0.875rem;
}

.article-tags {
    display: flex;
    gap: 0.5rem;
    flex-wrap: wrap;
    margin-top: 0.5rem;
}

.article-tag {
    background-color: var(--ctp-surface0);
    color: var(--ctp-subtext1);
    padding: 0.125rem 0.5rem;
    border-radius: 0.25rem;
    font-size: 0.75rem;
}

/* Article Page */
.article {
    padding: 1rem 0;
}

.article-header {
    margin-bottom: 2rem;
    padding-bottom: 1rem;
    border-bottom: 1px solid var(--ctp-surface0);
}

.article-title {
    font-size: 2rem;
    color: var(--ctp-text);
    margin-bottom: 0.5rem;
    line-height: 1.3;
}

.article-meta {
    color: var(--ctp-overlay1);
}

.article-content {
    line-height: 1.8;
}

/* Table of Contents */
.article-toc {
    margin-bottom: 2rem;
    border: 1px solid var(--ctp-surface1);
    border-radius: 8px;
}

.article-toc summary {
    cursor: pointer;
    padding: 0.75rem 1rem;
    font-weight: 600;
    color: var(--ctp-text);
}

.article-toc summary:hover {
    background-color: var(--ctp-surface0);
}

.article-toc nav {
    padding: 0 1rem 1rem 1rem;
}

.article-toc ul {
    list-style: none;
    padding-left: 1.5rem;
    margin: 0;
}

.article-toc > nav > ul {
    padding-left: 0;
}

.article-toc li {
    margin: 0.25rem 0;
}

.article-toc a {
    color: var(--ctp-blue);
    text-decoration: none;
}

.article-toc a:hover {
    text-decoration: underline;
}

.article-section {
    margin: 2rem 0;
}

.section-header {
    color: var(--ctp-mauve);
    margin-bottom: 1rem;
}

h2.section-header { font-size: 1.5rem; }
h3.section-header { font-size: 1.25rem; }
h4.section-header { font-size: 1.125rem; }
h5.section-header { font-size: 1rem; }
h6.section-header { font-size: 0.875rem; }

.content-item,
.content-list-item {
    margin: 1rem 0;
}

/* Text Styles */
.text-plain {
    display: block;
}

.code-inline {
    background-color: var(--ctp-surface0);
    color: var(--ctp-peach);
    padding: 0.125rem 0.375rem;
    border-radius: 0.25rem;
    font-family: 'JetBrains Mono', 'Fira Code', monospace;
    font-size: 0.875em;
}

.code-block {
    background-color: var(--ctp-mantle);
    padding: 1rem;
    border-radius: 0.5rem;
    overflow-x: auto;
    font-family: 'JetBrains Mono', 'Fira Code', monospace;
    font-size: 0.875rem;
    line-height: 1.5;
    margin: 1rem 0;
    border: 1px solid var(--ctp-surface1);
    box-shadow: 0 4px 20px rgba(69, 71, 90, 0.8);
}

/* Markdown Content */
.markdown-content {
    line-height: 1.8;
}

.markdown-content h1,
.markdown-content h2,
.markdown-content h3,
.markdown-content h4,
.markdown-content h5,
.markdown-content h6 {
    color: var(--ctp-mauve);
    margin: 1.5rem 0 0.75rem;
}

.markdown-content p {
    margin: 1rem 0;
}

.markdown-content ul,
.markdown-content ol {
    margin: 1rem 0;
    padding-left: 2rem;
}

.markdown-content li {
    margin: 0.5rem 0;
}

.markdown-content code {
    background-color: var(--ctp-surface0);
    color: var(--ctp-peach);
    padding: 0.125rem 0.375rem;
    border-radius: 0.25rem;
    font-family: 'JetBrains Mono', 'Fira Code', monospace;
    font-size: 0.875em;
}

.markdown-content pre {
    background-color: var(--ctp-mantle);
    padding: 1rem;
    border-radius: 0.5rem;
    overflow-x: auto;
    margin: 1rem 0;
    border: 1px solid var(--ctp-surface1);
    box-shadow: 0 4px 20px rgba(69, 71, 90, 0.8);
}

.markdown-content pre code {
    background: none;
    padding: 0;
}

.markdown-content blockquote {
    border-left: 3px solid var(--ctp-mauve);
    padding-left: 1rem;
    margin: 1rem 0;
    color: var(--ctp-subtext1);
}

.markdown-content a {
    color: var(--ctp-blue);
}

.markdown-content strong {
    color: var(--ctp-text);
    font-weight: 600;
}

.markdown-content table {
    border-collapse: collapse;
    width: 100%;
    margin: 1rem 0;
}

.markdown-content th,
.markdown-content td {
    border: 1px solid var(--ctp-surface1);
    padding: 0.5rem;
    text-align: left;
}

.markdown-content th {
    background-color: var(--ctp-surface0);
}

/* GitHub-style Alerts */
.alert {
    padding: 0.5rem 1rem;
    margin: 1rem 0;
    border-radius: 6px;
    border-left: 4px solid;
    background-color: var(--ctp-surface0);
}

.alert-title {
    display: flex;
    align-items: center;
    gap: 0.5rem;
    font-weight: 600;
    margin-bottom: 0.25rem;
}

.alert-icon {
    display: flex;
    align-items: center;
}

.alert-icon svg {
    width: 16px;
    height: 16px;
}

.alert-content {
    margin-left: 0;
}

.alert-content > :first-child {
    margin-top: 0;
}

.alert-content > :last-child {
    margin-bottom: 0;
}

/* Alert type colors (Catppuccin Mocha) */
.alert-note {
    border-color: var(--ctp-blue);
}

.alert-note .alert-title {
    color: var(--ctp-blue);
}

.alert-tip {
    border-color: var(--ctp-green);
}

.alert-tip .alert-title {
    color: var(--ctp-green);
}

.alert-important {
    border-color: var(--ctp-mauve);
}

.alert-important .alert-title {
    color: var(--ctp-mauve);
}

.alert-warning {
    border-color: var(--ctp-yellow);
}

.alert-warning .alert-title {
    color: var(--ctp-yellow);
}

.alert-caution {
    border-color: var(--ctp-red);
}

.alert-caution .alert-title {
    color: var(--ctp-red);
}

/* Giallo Code Blocks */
.giallo {
    padding: 1rem;
    border-radius: 0.5rem;
    overflow-x: auto;
    font-family: 'JetBrains Mono', 'Fira Code', monospace;
    font-size: 0.9rem;
    line-height: 1.5;
    margin: 1rem 0;
    border: 1px solid var(--ctp-surface1);
    box-shadow: 0 4px 20px rgba(69, 71, 90, 0.8);
}

/* Language Badge for Code Blocks */
pre[data-language] {
    position: relative;
    padding-top: 2rem;
}

pre[data-language]::before {
    content: attr(data-language);
    position: absolute;
    top: 0;
    left: 0;
    background-color: var(--ctp-surface1);
    color: var(--ctp-subtext0);
    padding: 0.125rem 0.5rem;
    font-size: 0.75rem;
    font-family: sans-serif;
    border-radius: 0.5rem 0 0.25rem 0;
    user-select: none;
}

/* Article Links (Source, GitHub) */
.article-links {
    display: inline-flex;
    gap: 1rem;
    margin-left: 1rem;
}

.article-source-link,
.article-github-link {
    color: var(--ctp-blue);
    font-size: 0.875rem;
}

.article-source-link:hover,
.article-github-link:hover {
    text-decoration: underline;
}

/* Source Page */
.source-view {
    padding: 1rem 0;
}

.source-header {
    margin-bottom: 2rem;
    padding-bottom: 1rem;
    border-bottom: 1px solid var(--ctp-surface0);
}

.source-title {
    font-size: 1.5rem;
    color: var(--ctp-text);
    margin-bottom: 0.75rem;
}

.source-actions {
    display: flex;
    gap: 1.5rem;
    align-items: center;
}

.source-back-link {
    color: var(--ctp-blue);
}

.source-github-link {
    color: var(--ctp-blue);
}

.source-content {
    margin-top: 1rem;
}

/* Responsive */
@media (max-width: 768px) {
    .site-main {
        padding: 1rem;
    }

    .article-title {
        font-size: 1.5rem;
    }
}
"#;

/// The stylesheet for Eure highlighting.
pub fn generate_eure_css() -> (r: String)
    ensures
        r@ == EURE_CSS@,
{
    EURE_CSS.to_owned()
}

/// The site's main stylesheet.
pub fn generate_main_css() -> (r: String)
    ensures
        r@ == MAIN_CSS@,
{
    MAIN_CSS.to_owned()
}

} // verus!
