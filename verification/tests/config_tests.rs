use onepage::Config;

#[test]
fn default_config() {
    let config = Config::default();
    assert_eq!(config.page_dir, "pages");
    assert_eq!(config.static_dir, "static");
    assert_eq!(config.output_dir, "dist");
    println!("{:?}", config);
}

#[test]
fn get_path() {
    let config = Config::default();
    assert_eq!(config.get_page_posts_path(), "pages/posts");
    assert_eq!(config.get_output_posts_path(), "dist/posts");
    assert_eq!(config.get_page_index_path(), "pages/index.md");

    let image_path = config.get_page_image_path();
    assert_eq!(&image_path, "pages/image");

    let image_file = format!("{}/{}", image_path, "xxx.png");
    assert_eq!(
        config.get_output_image_path(&image_file),
        "dist/image/xxx.png"
    );

    assert_eq!(
        config.get_output_assets_path("static/assets/123.css"),
        "dist/assets/123.css"
    );
    assert_eq!(
        config.get_output_favicon_path("static/favicon/favicon.ico"),
        "dist/favicon.ico"
    );
}
