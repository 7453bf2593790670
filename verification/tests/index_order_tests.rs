use onepage::{FrontMatter, LoadPage, Post, Posts};

fn post(title: &str, date: &str) -> Post {
    Post {
        front_matter: FrontMatter {
            title: title.to_string(),
            tags: None,
            date: date.to_string(),
        },
        path: format!("posts/{}.md", title),
        url: format!("/posts/{}.html", title),
        title: title.to_string(),
        content: String::new(),
    }
}

#[test]
fn index_sorted_descending() {
    // Distinct dates come out strictly newest-first, whatever the walk
    // order was.
    let mut posts = Posts::new(vec![
        post("b", "2020-01-01 00:00:00"),
        post("d", "2022-05-01 09:30:00"),
        post("a", "2019-12-31 23:59:59"),
        post("c", "2021-07-15 12:00:00"),
    ]);
    let index = posts.get_post_index();
    let titles = index.iter().map(|e| e.title.as_str()).collect::<Vec<_>>();
    assert_eq!(titles, vec!["d", "c", "b", "a"]);
    for w in index.windows(2) {
        assert!(w[0].date > w[1].date);
    }
}

#[test]
fn index_stable_for_equal_dates() {
    // Posts sharing a date keep the order the loader found them in.
    let mut posts = Posts::new(vec![
        post("first", "2020-01-01 00:00:00"),
        post("newer", "2021-01-01 00:00:00"),
        post("second", "2020-01-01 00:00:00"),
        post("third", "2020-01-01 00:00:00"),
    ]);
    let index = posts.get_post_index();
    let titles = index.iter().map(|e| e.title.as_str()).collect::<Vec<_>>();
    assert_eq!(titles, vec!["newer", "first", "second", "third"]);
}

#[test]
fn index_entries_project_posts() {
    let mut posts = Posts::new(vec![post("only", "2020-01-01 00:00:00")]);
    let index = posts.get_post_index();
    assert_eq!(index.len(), 1);
    assert_eq!(index[0].title, "only");
    assert_eq!(index[0].url, "/posts/only.html");
    assert_eq!(index[0].date, "2020-01-01 00:00:00");
}

#[test]
fn url_derivation() {
    // The url never depends on the front matter, only on the path.
    let raw1 = "---\ntitle: Hello World\ndate: 2022-03-26 12:00:00\n---\nhi\n";
    let raw2 = "---\ntitle: Something Else\ntags: \n    - x\ndate: 1999-01-01 00:00:00\n---\nbye\n";
    let p1 = Post::load("pages/posts/hello-world.md", raw1).unwrap();
    let p2 = Post::load("pages/posts/hello-world.md", raw2).unwrap();
    assert_eq!(p1.url, "/posts/hello-world.html");
    assert_eq!(p2.url, "/posts/hello-world.html");
}
