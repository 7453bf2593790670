use onepage::{IndexPage, PostIndex, SiteBuilder, SourceFile};

fn test_renderer() -> tera::Tera {
    let mut t = tera::Tera::default();
    t.add_raw_template("post.html", "<article>{{ title }}|{{ content }}</article>")
        .unwrap();
    t.add_raw_template(
        "index.html",
        "{{ title }}:{% for p in post_index %}{{ p.title }}{% endfor %}",
    )
    .unwrap();
    t
}

fn post_source(name: &str, title: &str, date: &str) -> SourceFile {
    SourceFile {
        path: format!("pages/posts/{}", name),
        content: format!("---\ntitle: {}\ndate: {}\n---\nbody\n", title, date),
    }
}

#[test]
fn default_site() {
    let site = SiteBuilder::new();
    println!("{:#?}", site);
}

#[test]
fn scaffold_content() {
    let content = onepage::create_page_content("new.md");
    assert!(content.starts_with("---\ntitle: new\ndate: "));
    assert!(content.contains("\ntags: \n    - draft\n---\n"));
    assert!(content.ends_with("# Write your post here.\n\n"));
}

#[test]
fn scaffold_page_exact() {
    let content = onepage::scaffold_page("demo.md", "2022-03-29 12:00:00");
    assert_eq!(
        content,
        "---\ntitle: demo\ndate: 2022-03-29 12:00:00\ntags: \n    - draft\n---\n\n# Write your post here.\n\n"
    );
}

#[test]
fn rebuild_renders_sorted_index() {
    // The scenario of one older and one newer post: the newer one must
    // come first on the rendered index page.
    let t = test_renderer();
    let mut site = SiteBuilder::new();
    let sources = vec![
        post_source("a.md", "A", "2020-01-02 00:00:00"),
        post_source("b.md", "B", "2020-01-01 00:00:00"),
    ];
    let files = site.rebuild(&t, sources, "# Home\nwelcome\n").unwrap();
    assert_eq!(files.len(), 3);
    assert_eq!(files[0].path, "dist/posts/a.html");
    assert_eq!(files[1].path, "dist/posts/b.html");
    assert_eq!(files[2].path, "dist/index.html");
    // "A" is newer than "B", so the index lists A before B.
    assert_eq!(files[2].content, "Home:AB");
    assert!(files[0].content.contains("<article>A|"));
}

#[test]
fn build_twice_identical() {
    // Building twice over an unchanged model gives byte-identical trees.
    let t = test_renderer();
    let mut site = SiteBuilder::new();
    let sources = vec![
        post_source("a.md", "A", "2020-01-02 00:00:00"),
        post_source("b.md", "B", "2020-01-01 00:00:00"),
    ];
    site.rebuild(&t, sources, "# Home\nwelcome\n").unwrap();
    let first = site.build(&t).unwrap();
    let second = site.build(&t).unwrap();
    assert_eq!(first.len(), second.len());
    for (a, b) in first.iter().zip(second.iter()) {
        assert_eq!(a.path, b.path);
        assert_eq!(a.content, b.content);
    }
}

#[test]
fn rebuild_fails_fast_on_bad_source() {
    // One file with a missing date aborts the rebuild: no output file is
    // produced for the valid posts either.
    let t = test_renderer();
    let mut site = SiteBuilder::new();
    let bad = SourceFile {
        path: "pages/posts/bad.md".to_string(),
        content: "---\ntitle: no date\n---\nbody\n".to_string(),
    };
    let sources = vec![post_source("good.md", "Good", "2020-01-01 00:00:00"), bad];
    let result = site.rebuild(&t, sources, "# Home\n");
    match result {
        Err(onepage::BuildError::Parse(e)) => {
            assert_eq!(e.path, "pages/posts/bad.md");
        }
        _ => panic!("a bad source must abort the rebuild"),
    }
    // The model was not replaced either.
    assert_eq!(site.posts.inner().len(), 0);
}

#[test]
fn build_fails_on_missing_template() {
    let t = tera::Tera::default();
    let mut site = SiteBuilder::new();
    let sources = vec![post_source("a.md", "A", "2020-01-02 00:00:00")];
    let result = site.rebuild(&t, sources, "# Home\n");
    match result {
        Err(onepage::BuildError::Template(e)) => {
            assert_eq!(e.template, "post.html");
            assert!(!e.message().is_empty());
        }
        _ => panic!("a missing template must abort the build"),
    }
}

#[test]
fn copy_plan_pairs() {
    let site = SiteBuilder::new();
    let plan = site.copy_plan();
    assert_eq!(plan.len(), 3);
    assert_eq!(plan[0].0, "pages/image");
    assert_eq!(plan[0].1, "dist/image");
    assert_eq!(plan[1].0, "static/assets");
    assert_eq!(plan[1].1, "dist/assets");
    assert_eq!(plan[2].0, "static/favicon");
    assert_eq!(plan[2].1, "dist");
}

#[test]
fn default_front_matter() {
    let fm = onepage::FrontMatter::default();
    assert_eq!(fm.title, "Undefined Title");
    assert!(fm.tags.is_none());
    // The date comes from the clock, in the fixed sortable form.
    assert_eq!(fm.date.len(), 19);
    let bytes = fm.date.as_bytes();
    assert_eq!(bytes[4], b'-');
    assert_eq!(bytes[7], b'-');
    assert_eq!(bytes[10], b' ');
    assert_eq!(bytes[13], b':');
    assert_eq!(bytes[16], b':');
}

#[test]
fn index_page_set_post_index() {
    let mut page = IndexPage::new("t".to_string(), "c".to_string(), None);
    assert!(page.post_index.is_none());
    page.set_post_index(vec![PostIndex {
        title: "a".to_string(),
        url: "/posts/a.html".to_string(),
        date: "2020-01-01 00:00:00".to_string(),
    }]);
    let entries = page.post_index.unwrap();
    assert_eq!(entries.len(), 1);
    assert_eq!(entries[0].url, "/posts/a.html");
}
