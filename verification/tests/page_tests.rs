use onepage::{IndexPage, LoadPage, Post, Posts, SourceFile};

#[test]
fn test_load_post() {
    let raw = "---\ntitle: Page for test\ntags: \n    - draft\ndate: 2022-03-29 12:00\n---\n# Test\nthis is content\n";
    let post = Post::load("pages/posts/test.md", raw).unwrap();
    assert_eq!(post.front_matter.title, "Page for test");
    assert_eq!(post.front_matter.tags.unwrap(), ["draft"]);
    assert_eq!(post.front_matter.date, "2022-03-29 12:00");

    assert_eq!(post.title, "Page for test");
    assert_eq!(post.content, "<h1>Test</h1>\n<p>this is content</p>\n");
    assert_eq!(post.url, "/posts/test.html");
    assert_eq!(post.path, "posts/test.md");
}

#[test]
fn valid_front_matter() {
    let content = "---\ntitle: \"test\"\ntags: \n        - \"test\"\n        - \"test2\"  \ndate: \"2020-01-01 00:00:00\"\n---\n# test\nis test\n";
    let (matter, _) = Post::read_front_matter(&content, "path/demo.md").unwrap();
    assert_eq!(matter.title, "test");
    assert_eq!(matter.tags.unwrap(), ["test", "test2"]);
    assert_eq!(matter.date, "2020-01-01 00:00:00");
}

#[test]
fn empty_tag_front_matter() {
    let content = r#"---
title: "test"
date: "2020-01-01 00:00:00"
---
"#;
    let (matter, _) = Post::read_front_matter(&content, "path/demo.md").unwrap();
    assert_eq!(matter.title, "test");
    assert_eq!(matter.date, "2020-01-01 00:00:00");
    assert!(matter.tags.is_none());
}

#[test]
#[should_panic]
fn invalid_front_matter() {
    let content = r#"---
        name: "name"
        ---
        this is content
        "#;
    let post = Post::read_front_matter(&content, "path/demo.md");
    assert!(post.is_err());
    post.unwrap();
}

#[test]
fn empty_front_matter() {
    let content = r#"---
        ---
        this is content
        "#;
    let post = Post::read_front_matter(&content, "path/demo.md");
    assert!(post.is_err());
}

#[test]
fn inline_tag_list() {
    let content = "---\ntitle: \"test\"\ntags: [\"a\", \"b\"]\ndate: \"2020-01-01 00:00:00\"\n---\nbody\n";
    let (matter, body) = Post::read_front_matter(&content, "path/demo.md").unwrap();
    assert_eq!(matter.tags.unwrap(), ["a", "b"]);
    assert_eq!(body, "body");
}

#[test]
fn missing_date_fails() {
    let content = "---\ntitle: \"test\"\n---\nbody\n";
    let err = Post::read_front_matter(&content, "pages/posts/bad.md").unwrap_err();
    assert_eq!(err.path, "pages/posts/bad.md");
    assert!(err.message().contains("date"));
    assert!(err.message().contains("pages/posts/bad.md"));
}

#[test]
fn missing_title_fails() {
    let content = "---\ndate: \"2020-01-01 00:00:00\"\n---\nbody\n";
    let err = Post::read_front_matter(&content, "pages/posts/bad.md").unwrap_err();
    assert!(err.message().contains("title"));
}

#[test]
fn header_line_without_colon_fails() {
    let content = "---\ntitle no colon here\ndate: 2020-01-01 00:00:00\n---\n";
    assert!(Post::read_front_matter(&content, "p.md").is_err());
}

#[test]
fn scalar_tags_fail() {
    // `tags` must be a list, inline or as an indented block.
    let content = "---\ntitle: t\ntags: notalist\ndate: 2020-01-01 00:00:00\n---\n";
    assert!(Post::read_front_matter(&content, "p.md").is_err());
}

#[test]
fn empty_file_fails() {
    // An empty file has no front-matter delimiter at all.
    assert!(Post::read_front_matter("", "p.md").is_err());
}

#[test]
fn unclosed_front_matter_fails() {
    let content = "---\ntitle: \"test\"\ndate: \"2020-01-01 00:00:00\"\nno closing delimiter";
    assert!(Post::read_front_matter(&content, "p.md").is_err());
}

#[test]
fn test_strip_hash_from_title() {
    assert_eq!(onepage::strip_hash_from_title("# title"), "title");
    assert_eq!(onepage::strip_hash_from_title("## title"), "title");
    assert_eq!(onepage::strip_hash_from_title("### title"), "title");
    assert_eq!(onepage::strip_hash_from_title("#### title"), "title");
    assert_eq!(onepage::strip_hash_from_title("##### title"), "title");
    assert_eq!(onepage::strip_hash_from_title("###### title"), "title");
    assert_eq!(onepage::strip_hash_from_title("####### title"), "title");
    assert_eq!(onepage::strip_hash_from_title("title"), "title");
}

#[test]
fn test_load_index_page() {
    let raw = "# ONEPAGE\n\n### Index Page\n\nSequi voluptates est voluptas architecto. Dolor fuga veniam velit molestiae consectetur. Ut adipisci illum non aliquam voluptas eum. Velit nostrum voluptatem. Aspernatur non saepe asperiores. Veritatis rerum magnam animi ea velit.\n";
    let index_page = IndexPage::load("pages/index.md", raw).unwrap();
    assert_eq!(index_page.title, "ONEPAGE");

    let h3 = index_page.content.contains("<h3>Index Page</h3>");
    assert!(h3);
    let section = index_page.content.contains("<p>Sequi voluptates est voluptas architecto. Dolor fuga veniam velit molestiae consectetur. Ut adipisci illum non aliquam voluptas eum. Velit nostrum voluptatem. Aspernatur non saepe asperiores. Veritatis rerum magnam animi ea velit.</p>");
    assert!(section);

    assert!(index_page.post_index.is_none());
}

fn source(path: &str, title: &str, date: &str) -> SourceFile {
    SourceFile {
        path: path.to_string(),
        content: format!("---\ntitle: {}\ndate: {}\n---\nbody\n", title, date),
    }
}

#[test]
fn test_load_posts() {
    let sources = vec![
        source("pages/posts/markdown.md", "Markdown", "2022-03-25 12:00:00"),
        source("pages/posts/hello-world.md", "Hello", "2022-03-26 12:00:00"),
        source("pages/posts/syntax-demo.md", "Syntax", "2022-03-27 12:00:00"),
        source("pages/posts/test.md", "Page for test", "2022-03-29 12:00:00"),
    ];
    let posts = Posts::load(sources).unwrap();
    assert_eq!(posts.inner().len(), 4);
    let paths = posts
        .inner()
        .iter()
        .map(|p| p.path.clone())
        .collect::<Vec<_>>();
    assert_eq!(
        paths,
        vec![
            "posts/markdown.md",
            "posts/hello-world.md",
            "posts/syntax-demo.md",
            "posts/test.md"
        ]
    );
}

#[test]
fn load_posts_fail_fast() {
    let bad = SourceFile {
        path: "pages/posts/bad.md".to_string(),
        content: "---\ntitle: no date here\n---\nbody\n".to_string(),
    };
    let sources = vec![
        source("pages/posts/good.md", "Good", "2022-03-25 12:00:00"),
        bad,
        source("pages/posts/later.md", "Later", "2022-03-26 12:00:00"),
    ];
    let err = Posts::load(sources).unwrap_err();
    assert_eq!(err.path, "pages/posts/bad.md");
}

#[test]
fn image_src_rewritten() {
    let raw = "---\ntitle: Pics\ndate: 2022-03-29 12:00:00\n---\n![a](../image/a.png)\n";
    let post = Post::load("pages/posts/pics.md", raw).unwrap();
    assert!(post.content.contains("/image/a.png"));
    assert!(!post.content.contains("../image"));
}
