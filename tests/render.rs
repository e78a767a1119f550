use eure_blog::article::{
    AlertType, Article, ArticleError, Frontmatter, Item, Language, Level2, Level3, Level6,
    MarkOptions, Text, TextOrNested, Toc,
};
use eure_blog::code_highlight::{format_language_name, known_name, CodeHighlighter, HighlightCache};
use eure_blog::css::{generate_eure_css, generate_main_css};
use eure_blog::highlight::{
    build_classes, render_eure_highlighted, render_eure_highlighted_with_line_numbers,
    render_eure_tokens_only, render_tokens_by_line, render_tokens_to_string, tokenize_eure,
    Token, TokenType,
};
use eure_blog::markup::html_escape;
use eure_blog::page::{
    base_layout, heading_tag_of, render_article_page, render_index_page, render_source_page,
    render_section_with_id, ArticleEntry,
};
use eure_blog::regions::{find_code_block_for_range, find_code_block_regions};
use eure_blog::text::{render_text, render_text_with_mark, WARNING_ICON};
use eure_blog::toc::build_toc;

fn plain(s: &str) -> Text {
    Text { content: s.to_string(), language: Language::Plaintext }
}

fn tagged(s: &str, lang: &str) -> Text {
    Text { content: s.to_string(), language: Language::Other(lang.to_string()) }
}

fn no_mark() -> MarkOptions {
    MarkOptions { alert: None, dangerously_inner_html: false }
}

fn leaf<T>(s: &str) -> Item<TextOrNested<T>> {
    Item::Normal(TextOrNested::Text { text: plain(s), mark: no_mark() })
}

fn level3(title: &str) -> Level3 {
    Level3 { header: plain(title), sections: vec![] }
}

fn level2(title: &str, sections: Vec<(String, Item<TextOrNested<Level3>>)>) -> Level2 {
    Level2 { header: plain(title), sections }
}

fn article(sections: Vec<(String, Item<TextOrNested<Level2>>)>) -> Article {
    Article {
        frontmatter: Frontmatter {
            title: plain("Title"),
            description: plain("Description"),
            date: Some(plain("2024-01-01")),
            tags: vec!["eure".to_string()],
            draft: false,
        },
        header: plain("Header"),
        sections,
    }
}

fn html(v: Vec<u8>) -> String {
    String::from_utf8(v).unwrap()
}

fn highlighter() -> CodeHighlighter {
    CodeHighlighter::new().unwrap()
}

#[test]
fn duplicate_depth_two_keys_fail_the_build() {
    let a = article(vec![
        ("intro".to_string(), Item::Normal(TextOrNested::Nested(level2("One", vec![])))),
        ("intro".to_string(), Item::Normal(TextOrNested::Nested(level2("Two", vec![])))),
    ]);
    match build_toc(&a) {
        Err(ArticleError::DuplicateSectionId(k)) => assert_eq!(k, "intro"),
        other => panic!("unexpected: {:?}", other),
    }
    let h = highlighter();
    match render_article_page(&a, "post", None, &h) {
        Err(ArticleError::DuplicateSectionId(k)) => assert_eq!(k, "intro"),
        other => panic!("unexpected: {:?}", other),
    }
}

#[test]
fn unregistered_language_renders_escaped_pre() {
    let h = highlighter();
    let out = render_text(&tagged("if a < b {}", "rust-is-not-registered"), &h);
    assert!(out.starts_with("<pre class=\"code-block\""), "{}", out);
    assert!(out.contains("if a &lt; b {}"), "{}", out);
    let a = article(vec![(
        "code".to_string(),
        Item::Normal(TextOrNested::Text {
            text: tagged("x", "rust-is-not-registered"),
            mark: no_mark(),
        }),
    )]);
    assert!(render_article_page(&a, "post", None, &h).is_ok());
}

#[test]
fn nested_eure_regions_are_tokenized_at_each_level() {
    let h = highlighter();
    let innermost = "c = 1\n";
    let middle = format!("b = ```eure\n{}```\n", innermost);
    let inner_html = html(render_eure_tokens_only(innermost, Some(&h), &mut HighlightCache::new()));
    let middle_html = html(render_eure_tokens_only(&middle, Some(&h), &mut HighlightCache::new()));
    assert!(inner_html.contains("<span class=\""), "{}", inner_html);
    assert!(middle_html.contains(&inner_html), "{}", middle_html);
    let outer = format!("a = ````eure\n{}````\n", middle);
    let outer_html = html(render_eure_tokens_only(&outer, Some(&h), &mut HighlightCache::new()));
    assert!(outer_html.contains(">b</span>"), "{}", outer_html);
    assert!(outer_html.contains(">c</span>"), "{}", outer_html);
}

#[test]
fn toc_marker_lists_three_nested_links() {
    let a = article(vec![
        ("toc".to_string(), Item::Toc(Toc { toc: true })),
        (
            "first".to_string(),
            Item::Normal(TextOrNested::Nested(level2(
                "First",
                vec![(
                    "inner".to_string(),
                    Item::Normal(TextOrNested::Nested(level3("Inner"))),
                )],
            ))),
        ),
        ("second".to_string(), Item::Normal(TextOrNested::Nested(level2("Second", vec![])))),
    ]);
    let entries = build_toc(&a).unwrap();
    assert_eq!(entries.len(), 2);
    assert_eq!(entries[0].children.len(), 1);
    let h = highlighter();
    let page = render_article_page(&a, "post", None, &h).unwrap();
    assert_eq!(page.matches("<a href=\"#").count(), 3);
    assert!(page.contains(
        "<li><a href=\"#first\">First</a><ul><li><a href=\"#inner\">Inner</a></li></ul></li>"
    ));
    assert!(page.contains("<li><a href=\"#second\">Second</a></li>"));
    assert!(page.contains("<h2 class=\"section-header\" id=\"first\">"));
}

#[test]
fn toc_marker_without_entries_renders_nothing() {
    let a = article(vec![("toc".to_string(), Item::Toc(Toc { toc: true }))]);
    let h = highlighter();
    let page = render_article_page(&a, "post", None, &h).unwrap();
    assert!(!page.contains("article-toc"));
}

#[test]
fn warning_alert_wraps_escaped_text() {
    let h = highlighter();
    let mark = MarkOptions { alert: Some(AlertType::Warning), dangerously_inner_html: false };
    let out = html(render_text_with_mark(&plain("Disk usage high"), &mark, &h, &mut HighlightCache::new()).unwrap());
    assert!(out.starts_with("<div class=\"alert alert-warning\">"), "{}", out);
    assert!(out.contains(WARNING_ICON));
    assert!(out.contains("<span class=\"text-plain\">Disk usage high</span>"));
    assert!(out.contains("<span class=\"alert-title-text\">Warning</span>"));
}

#[test]
fn alert_kinds_have_distinct_classes_and_icons() {
    let h = highlighter();
    let kinds = [
        (AlertType::Note, "alert-note"),
        (AlertType::Tip, "alert-tip"),
        (AlertType::Important, "alert-important"),
        (AlertType::Warning, "alert-warning"),
        (AlertType::Caution, "alert-caution"),
    ];
    let mut icons: Vec<String> = Vec::new();
    for (kind, class) in kinds.iter() {
        let mark = MarkOptions { alert: Some(*kind), dangerously_inner_html: false };
        let out = html(render_text_with_mark(&plain("x"), &mark, &h, &mut HighlightCache::new()).unwrap());
        assert!(out.contains(&format!("class=\"alert {}\"", class)));
        let start = out.find("<svg").unwrap();
        let end = out.find("</svg>").unwrap();
        icons.push(out[start..end].to_string());
    }
    for i in 0..icons.len() {
        for j in 0..icons.len() {
            if i != j {
                assert_ne!(icons[i], icons[j]);
            }
        }
    }
}

#[test]
fn raw_html_needs_an_html_tag() {
    let h = highlighter();
    let mark = MarkOptions { alert: None, dangerously_inner_html: true };
    let ok = html(render_text_with_mark(&tagged("<b>x</b>", "html"), &mark, &h, &mut HighlightCache::new()).unwrap());
    assert_eq!(ok, "<div class=\"markdown-content\"><b>x</b></div>");
    let bad = render_text_with_mark(&tagged("<b>x</b>", "markdown"), &mark, &h, &mut HighlightCache::new());
    assert_eq!(bad, Err(ArticleError::RawHtmlNotHtml));
}

#[test]
fn tokens_and_gaps_cover_the_text() {
    let content = "x<y & z";
    let tokens = vec![
        Token { start: 0, length: 1, token_type: TokenType::Property, modifiers: 0 },
        Token { start: 2, length: 1, token_type: TokenType::Number, modifiers: 0 },
    ];
    let out = html(render_tokens_to_string(content, &tokens, &[], None, &mut HighlightCache::new()));
    assert_eq!(
        out,
        "<span class=\"eure-property\">x</span>&lt;<span class=\"eure-number\">y</span> &amp; z"
    );
}

#[test]
fn overlapping_and_out_of_range_tokens_are_passed_over() {
    let content = "abcd";
    let tokens = vec![
        Token { start: 0, length: 2, token_type: TokenType::Keyword, modifiers: 0 },
        Token { start: 1, length: 2, token_type: TokenType::Keyword, modifiers: 0 },
        Token { start: 3, length: 5, token_type: TokenType::Keyword, modifiers: 0 },
    ];
    let out = html(render_tokens_to_string(content, &tokens, &[], None, &mut HighlightCache::new()));
    assert_eq!(out, "<span class=\"eure-keyword\">ab</span>cd");
}

#[test]
fn eure_tokens_cover_the_text() {
    let content = "a = 1\nb = \"s\"\n";
    let tokens = tokenize_eure(content);
    assert!(!tokens.is_empty());
    let out = html(render_tokens_to_string(content, &tokens, &[], None, &mut HighlightCache::new()));
    let mut text = String::new();
    let mut inside_tag = false;
    for c in out.chars() {
        match c {
            '<' => inside_tag = true,
            '>' if inside_tag => inside_tag = false,
            _ if !inside_tag => text.push(c),
            _ => {}
        }
    }
    let text = text.replace("&lt;", "<").replace("&gt;", ">").replace("&amp;", "&");
    assert_eq!(text, content);
}

#[test]
fn modifier_bits_add_classes() {
    let t = Token { start: 0, length: 1, token_type: TokenType::Keyword, modifiers: 5 };
    assert_eq!(
        html(build_classes(&t)),
        "eure-keyword eure-mod-declaration eure-mod-section-header"
    );
    let t = Token { start: 0, length: 1, token_type: TokenType::SectionMarker, modifiers: 2 };
    assert_eq!(html(build_classes(&t)), "eure-section-marker eure-mod-definition");
}

#[test]
fn regions_are_found_with_their_language() {
    let content = "a = ```rust\nfn f() {}\n```\n";
    let regions = find_code_block_regions(content);
    assert_eq!(regions.len(), 1);
    let r = regions[0];
    assert_eq!(&content[r.lang_start..r.lang_end], "rust");
    assert_eq!(&content[r.content_start..r.content_end], "fn f() {}\n");
    assert_eq!(find_code_block_for_range(0, 5, &regions), None);
    assert_eq!(find_code_block_for_range(10, 14, &regions), Some(r));
}

#[test]
fn unterminated_fence_is_no_region() {
    assert!(find_code_block_regions("a = ```rust\nfn f() {}\n").is_empty());
    assert!(find_code_block_regions("```rust").is_empty());
    assert!(find_code_block_regions("").is_empty());
}

#[test]
fn closing_fence_must_match_the_opening_length() {
    let content = "````md\n```\ninner\n```\n````\n";
    let regions = find_code_block_regions(content);
    assert_eq!(regions.len(), 1);
    let r = regions[0];
    assert_eq!(&content[r.lang_start..r.lang_end], "md");
    assert_eq!(&content[r.content_start..r.content_end], "```\ninner\n```\n");
}

#[test]
fn empty_language_region_stays_plain() {
    let h = highlighter();
    let content = "a = ```\nfn f() {}\n```\n";
    let out = html(render_eure_tokens_only(content, Some(&h), &mut HighlightCache::new()));
    assert!(out.contains("fn f() {}\n"), "{}", out);
    assert!(!out.contains("style=\"color:"));
}

#[test]
fn rust_region_is_highlighted_line_by_line() {
    let h = highlighter();
    let content = "a = ```rust\nfn f() {}\nlet x = 1;\n```\n";
    let out = html(render_eure_tokens_only(content, Some(&h), &mut HighlightCache::new()));
    assert!(out.contains("style=\"color:"), "{}", out);
    assert_eq!(out.matches('\n').count(), content.matches('\n').count());
    let plain_out = html(render_eure_tokens_only(content, None, &mut HighlightCache::new()));
    assert!(!plain_out.contains("style=\"color:"));
    assert!(plain_out.contains("fn f() {}\nlet x = 1;\n"));
}

#[test]
fn line_numbered_mode_wraps_each_line() {
    assert_eq!(
        html(render_tokens_by_line(b"a\nb")),
        "<span class=\"line\">a</span><span class=\"line\">b</span>"
    );
    assert_eq!(html(render_tokens_by_line(b"")), "<span class=\"line\"></span>");
    let h = highlighter();
    let out = render_eure_highlighted_with_line_numbers("a = 1\nb = 2", Some(&h));
    assert!(out.starts_with("<pre class=\"eure-source eure-source-with-lines\"><code>"));
    assert_eq!(out.matches("<span class=\"line\">").count(), 2);
    let block = render_eure_highlighted("a = 1", Some(&h));
    assert!(block.starts_with("<pre class=\"code-block\"><code>"));
    assert!(block.ends_with("</code></pre>"));
}

#[test]
fn html_escape_replaces_three_characters() {
    assert_eq!(html_escape("a<b>&c\"d"), "a&lt;b&gt;&amp;c\"d");
    assert_eq!(html_escape(""), "");
}

#[test]
fn language_names_for_badges() {
    assert_eq!(format_language_name("rust"), "Rust");
    assert_eq!(format_language_name("RUST"), "Rust");
    assert_eq!(format_language_name("c++"), "C++");
    assert_eq!(format_language_name("sh"), "Bash");
    assert_eq!(format_language_name("toml"), "TOML");
    assert_eq!(format_language_name("zig"), "ZIG");
}

#[test]
fn known_language_block_and_names() {
    let h = highlighter();
    let out = h.highlight("fn main() {}", "rust");
    assert!(out.starts_with("<pre class=\"giallo hl-code\""), "{}", out);
    let line = h.highlight_line("fn main() {}", "rust").unwrap();
    assert!(line.contains("<span style=\"color:"), "{}", line);
    assert!(h.highlight_line("x", "rust-is-not-registered").is_none());
    assert!(h.generate_css().unwrap().contains("hl-"));
    assert_eq!(known_name("rust"), Some("Rust"));
    assert_eq!(known_name("c#"), Some("C#"));
    assert_eq!(known_name("RUST"), None);
    assert_eq!(known_name("zig"), None);
}

#[test]
fn markdown_leaf_is_compiled() {
    let h = highlighter();
    let out = render_text(&tagged("# Hi\n\n*x*", "markdown"), &h);
    assert!(out.starts_with("<div class=\"markdown-content\">"));
    assert!(out.contains("<h1>Hi</h1>"), "{}", out);
    assert!(out.contains("<em>x</em>"), "{}", out);
}

#[test]
fn plain_and_inline_text() {
    let h = highlighter();
    assert_eq!(render_text(&plain("a < \"b\""), &h), "<span class=\"text-plain\">a &lt; &quot;b&quot;</span>");
    let code = Text { content: "x & y".to_string(), language: Language::Implicit };
    assert_eq!(render_text(&code, &h), "<code class=\"code-inline\">x &amp; y</code>");
}

#[test]
fn distinct_keys_give_one_entry_per_visible_section() {
    let deep = Level6 {
        header: plain("Six"),
        sections: vec![
            ("leaf-a".to_string(), Item::Normal(plain("a"))),
            ("leaf-b".to_string(), Item::List(vec![plain("b"), plain("c")])),
        ],
    };
    let l5 = eure_blog::article::Level5 {
        header: plain("Five"),
        sections: vec![("six".to_string(), Item::Normal(TextOrNested::Nested(deep)))],
    };
    let l4 = eure_blog::article::Level4 {
        header: plain("Four"),
        sections: vec![("five".to_string(), Item::Normal(TextOrNested::Nested(l5)))],
    };
    let l3 = Level3 {
        header: plain("Three"),
        sections: vec![("four".to_string(), Item::Normal(TextOrNested::Nested(l4)))],
    };
    let a = article(vec![(
        "two".to_string(),
        Item::Normal(TextOrNested::Nested(level2(
            "Two",
            vec![
                ("three".to_string(), Item::Normal(TextOrNested::Nested(l3))),
                ("note".to_string(), leaf("text")),
            ],
        ))),
    )]);
    let entries = build_toc(&a).unwrap();
    assert_eq!(entries.len(), 1);
    assert_eq!(entries[0].id, "two");
    assert_eq!(entries[0].level, 2);
    assert_eq!(entries[0].children.len(), 1);
    assert_eq!(entries[0].children[0].id, "three");
    assert_eq!(entries[0].children[0].level, 3);
    assert!(entries[0].children[0].children.is_empty());
}

#[test]
fn duplicate_deepest_leaf_key_fails() {
    let deep = Level6 {
        header: plain("Six"),
        sections: vec![("two".to_string(), Item::Normal(plain("a")))],
    };
    let l5 = eure_blog::article::Level5 {
        header: plain("Five"),
        sections: vec![("six".to_string(), Item::Normal(TextOrNested::Nested(deep)))],
    };
    let l4 = eure_blog::article::Level4 {
        header: plain("Four"),
        sections: vec![("five".to_string(), Item::Normal(TextOrNested::Nested(l5)))],
    };
    let l3 = Level3 {
        header: plain("Three"),
        sections: vec![("four".to_string(), Item::Normal(TextOrNested::Nested(l4)))],
    };
    let a = article(vec![(
        "two".to_string(),
        Item::Normal(TextOrNested::Nested(level2(
            "Two",
            vec![("three".to_string(), Item::Normal(TextOrNested::Nested(l3)))],
        ))),
    )]);
    match build_toc(&a) {
        Err(ArticleError::DuplicateSectionId(k)) => assert_eq!(k, "two"),
        other => panic!("unexpected: {:?}", other),
    }
}

#[test]
fn text_leaf_keys_above_depth_six_are_not_registered() {
    let a = article(vec![
        ("same".to_string(), leaf("a")),
        ("same".to_string(), leaf("b")),
    ]);
    assert!(build_toc(&a).unwrap().is_empty());
}

#[test]
fn article_page_has_layout_and_links() {
    let h = highlighter();
    let a = article(vec![("intro".to_string(), leaf("Hello"))]);
    let page = render_article_page(&a, "post", Some("abc123"), &h).unwrap();
    assert!(page.starts_with("<!DOCTYPE html><html lang=\"en\">"));
    assert!(page.contains("<title>Title | Eure Blog</title>"));
    assert!(page.contains("href=\"/source/post.html\""));
    assert!(page.contains(
        "href=\"https://github.com/eure-lang/blog.eure.dev/blob/abc123/articles/post.eure\""
    ));
    assert!(page.contains("<time class=\"article-date\">2024-01-01</time>"));
    assert!(page.contains("<span class=\"article-tag\">eure</span>"));
    assert!(page.contains(
        "<div class=\"content-item\" data-key=\"intro\"><span class=\"text-plain\">Hello</span></div>"
    ));
    let list = article(vec![(
        "items".to_string(),
        Item::List(vec![
            TextOrNested::Text { text: plain("one"), mark: no_mark() },
            TextOrNested::Text { text: plain("two"), mark: no_mark() },
        ]),
    )]);
    let page = render_article_page(&list, "post", None, &h).unwrap();
    assert!(page.contains("<div class=\"content-list\" data-key=\"items\"><div class=\"content-list-item\"><span class=\"text-plain\">one</span></div><div class=\"content-list-item\"><span class=\"text-plain\">two</span></div></div>"));
    assert!(!page.contains("GitHub"));
}

#[test]
fn source_and_index_pages() {
    let h = highlighter();
    let page = render_source_page("post", "Title", "a = 1\n", Some("abc"), &h);
    assert!(page.contains("<title>Source: Title | Eure Blog</title>"));
    assert!(page.contains("eure-source-with-lines"));
    assert!(page.contains("class=\"source-github-link\""));
    let a = article(vec![]);
    let entries = vec![ArticleEntry { slug: "post", article: &a }];
    let index = render_index_page(&entries);
    assert!(index.contains("<title>Home | Eure Blog</title>"));
    assert!(index.contains("href=\"/articles/post.html\""));
    assert!(index.contains("<span class=\"article-title\">Title</span>"));
    assert_eq!(base_layout("T", "<p>x</p>").matches("<p>x</p>").count(), 1);
}

#[test]
fn stylesheets_name_every_class() {
    let css = generate_eure_css();
    for class in [
        ".eure-keyword", ".eure-number", ".eure-string", ".eure-comment", ".eure-operator",
        ".eure-property", ".eure-punctuation", ".eure-macro", ".eure-decorator",
        ".eure-section-marker", ".eure-extension-marker", ".eure-extension-ident",
        ".eure-mod-declaration", ".eure-mod-definition", ".eure-mod-section-header",
    ] {
        assert!(css.contains(class), "{}", class);
    }
    assert!(generate_main_css().contains(":root"));
}

#[test]
fn six_backtick_fence_and_two_regions() {
    let content = "``````eure\nx = 1\n``````\n";
    let regions = find_code_block_regions(content);
    assert_eq!(regions.len(), 1);
    let r = regions[0];
    assert_eq!(&content[r.lang_start..r.lang_end], "eure");
    assert_eq!(&content[r.content_start..r.content_end], "x = 1\n");

    let two = "a = ```eure\nx = 1\n```\nb = ```eure\ny = 2\n```\n";
    let regions = find_code_block_regions(two);
    assert_eq!(regions.len(), 2);
    assert_eq!(&two[regions[0].content_start..regions[0].content_end], "x = 1\n");
    assert_eq!(&two[regions[1].content_start..regions[1].content_end], "y = 2\n");
    let h = highlighter();
    let out = html(render_eure_tokens_only(two, Some(&h), &mut HighlightCache::new()));
    let x = html(render_eure_tokens_only("x = 1\n", Some(&h), &mut HighlightCache::new()));
    let y = html(render_eure_tokens_only("y = 2\n", Some(&h), &mut HighlightCache::new()));
    assert!(out.contains(&x), "{}", out);
    assert!(out.contains(&y), "{}", out);
}

#[test]
fn keys_and_titles_are_escaped_in_attributes() {
    let h = highlighter();
    let a = article(vec![
        ("toc".to_string(), Item::Toc(Toc { toc: true })),
        ("a\"b".to_string(), Item::Normal(TextOrNested::Nested(level2("<T>", vec![])))),
    ]);
    let page = render_article_page(&a, "post", None, &h).unwrap();
    assert!(page.contains("<a href=\"#a&quot;b\">&lt;T&gt;</a>"), "{}", page);
    assert!(page.contains("id=\"a&quot;b\""));
}

#[test]
fn raw_html_leaf_in_article_fails_the_page() {
    let h = highlighter();
    let a = article(vec![(
        "raw".to_string(),
        Item::Normal(TextOrNested::Text {
            text: plain("<b>x</b>"),
            mark: MarkOptions { alert: None, dangerously_inner_html: true },
        }),
    )]);
    assert_eq!(render_article_page(&a, "post", None, &h), Err(ArticleError::RawHtmlNotHtml));
}

#[test]
fn longer_backtick_run_does_not_close_a_fence() {
    assert!(find_code_block_regions("```\nx\n````").is_empty());
    assert!(find_code_block_regions("```\nx\n````\n").is_empty());
    let regions = find_code_block_regions("```\nx\n````\n```\n");
    assert_eq!(regions.len(), 1);
    assert_eq!(regions[0].content_start, 4);
    assert_eq!(regions[0].content_end, 11);
}

#[test]
fn a_gap_highlights_only_its_first_region() {
    let h = highlighter();
    let content = "```rust\nfn f() {}\n```\n```rust\nlet y = 2;\n```\n";
    let regions = find_code_block_regions(content);
    assert_eq!(regions.len(), 2);
    let out = html(render_tokens_to_string(content, &[], &regions, Some(&h), &mut HighlightCache::new()));
    assert!(out.contains("style=\"color:"), "{}", out);
    assert!(out.contains("```rust\nlet y = 2;\n```\n"), "{}", out);
}

#[test]
fn empty_tag_region_leaves_the_whole_gap_escaped() {
    let h = highlighter();
    let content = "```\na < b\n```\n```rust\nfn f() {}\n```\n";
    let regions = find_code_block_regions(content);
    assert_eq!(regions.len(), 2);
    let out = html(render_tokens_to_string(content, &[], &regions, Some(&h), &mut HighlightCache::new()));
    assert_eq!(out, "```\na &lt; b\n```\n```rust\nfn f() {}\n```\n");
}

#[test]
fn unknown_heading_level_falls_back_to_h2() {
    assert_eq!(heading_tag_of("h4"), "h4");
    assert_eq!(heading_tag_of("h9"), "h2");
    let h = highlighter();
    let sections: Vec<(String, Item<Text>)> = vec![];
    let out = html(render_section_with_id("id", &plain("T"), &sections, "h9", &h, &vec![], &mut HighlightCache::new()).unwrap());
    assert!(out.starts_with("<section class=\"article-section article-section-h9\"><h2 class=\"section-header\" id=\"id\">"), "{}", out);
    assert!(out.contains("</h2>"));
}
