use blib::image::{image_extension, is_local_image, resolve_image_src, RenderError};

#[test]
fn local_images_numbered_in_order() {
    let mut n: usize = 0;
    assert_eq!(resolve_image_src("a.png", "my-post", &mut n).unwrap(), "/img/my-post/1.png");
    assert_eq!(resolve_image_src("img/b.jpg", "my-post", &mut n).unwrap(), "/img/my-post/2.jpg");
    assert_eq!(n, 2);
}

#[test]
fn remote_image_unchanged() {
    let mut n: usize = 0;
    assert_eq!(resolve_image_src("https://x.com/a.png", "my-post", &mut n).unwrap(), "https://x.com/a.png");
    assert_eq!(n, 0);
}

#[test]
fn missing_extension_fails() {
    let mut n: usize = 3;
    match resolve_image_src("diagram", "my-post", &mut n) {
        Err(RenderError::MissingImageExtension(d)) => assert_eq!(d, "diagram"),
        Ok(s) => panic!("unexpected {}", s),
    }
    assert_eq!(n, 3);
}

#[test]
fn remote_and_absolute_kinds() {
    assert!(!is_local_image("/static/a.png"));
    assert!(!is_local_image("http://x/a.png"));
    assert!(!is_local_image("https://x/a.png"));
    assert!(!is_local_image("mailto:a@b.c"));
    assert!(!is_local_image("data:image/png;base64,AAAA"));
    assert!(!is_local_image("ftp://host/a.png"));
    assert!(is_local_image("a.png"));
    assert!(is_local_image("img/a.png"));
}

#[test]
fn extension_rules() {
    assert_eq!(image_extension("dir.d/file"), None);
    assert_eq!(image_extension(".hidden"), None);
    assert_eq!(image_extension("a/.b.png"), Some("png".to_string()));
    assert_eq!(image_extension("photo.tar.gz"), Some("gz".to_string()));
    assert_eq!(image_extension("x."), Some(String::new()));
    assert_eq!(image_extension(".."), None);
}

#[test]
fn extension_kept_in_path() {
    let mut n: usize = 9;
    assert_eq!(resolve_image_src("pics/cat.jpeg", "p", &mut n).unwrap(), "/img/p/10.jpeg");
}
