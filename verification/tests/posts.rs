use bytes::Bytes;
use markhtml::posts::{
    compound_name, extension_of, image_type_of, is_markdown, Post, Posts,
};
use markhtml::table::Table;

fn post(name: &str, title: &str) -> Post {
    Post {
        name: name.to_string(),
        title: title.to_string(),
        abs: None,
        text: format!("<p>{}</p>\n", title),
        published: true,
    }
}

#[test]
fn markdown_names() {
    assert!(is_markdown("post.md"));
    assert!(is_markdown(".md"));
    assert!(is_markdown("a.b.md"));
    assert!(is_markdown("\u{e9}t\u{e9}.md"));
    assert!(!is_markdown("md"));
    assert!(!is_markdown("post.MD"));
    assert!(!is_markdown("post.md "));
    assert!(!is_markdown("post.mdx"));
    assert!(!is_markdown(""));
    assert!(!is_markdown("image.png"));
}

#[test]
fn compound_names() {
    assert_eq!(compound_name("trip", "sea.png"), "trip/sea.png");
    assert_eq!(compound_name("", ""), "/");
}

#[test]
fn extensions() {
    assert_eq!(extension_of("sea.png"), Some("png"));
    assert_eq!(extension_of("a.b.jpeg"), Some("jpeg"));
    assert_eq!(extension_of("dot."), Some(""));
    assert_eq!(extension_of(".hidden"), Some("hidden"));
    assert_eq!(extension_of("none"), None);
    assert_eq!(extension_of(""), None);
    assert_eq!(extension_of("\u{e9}.\u{e8}\u{e9}"), Some("\u{e8}\u{e9}"));
}

#[test]
fn image_types() {
    assert_eq!(image_type_of("sea.png"), Some("image/png"));
    assert_eq!(image_type_of("a.b.jpg"), Some("image/jpeg"));
    assert_eq!(image_type_of("x.jpeg"), Some("image/jpeg"));
    assert_eq!(image_type_of("x.gif"), None);
    assert_eq!(image_type_of("png"), None);
    assert_eq!(image_type_of("x.png.txt"), None);
}

#[test]
fn table_keeps_one_value_for_each_name() {
    let mut table: Table<u32> = Table::new();
    assert_eq!(table.get("a"), None);
    table.insert("a".to_string(), 1);
    table.insert("b".to_string(), 2);
    assert_eq!(table.get("a"), Some(&1));
    assert_eq!(table.get("b"), Some(&2));
    assert_eq!(table.get("c"), None);
    table.insert("a".to_string(), 3);
    assert_eq!(table.get("a"), Some(&3));
    assert_eq!(table.get("b"), Some(&2));
    assert_eq!(table.get(""), None);
}

#[test]
fn posts_are_found_by_name() {
    let mut posts = Posts::new();
    assert!(posts.get_post("a").is_none());
    posts.add_post("a".to_string(), post("a", "A"));
    posts.add_post("b".to_string(), post("b", "B"));
    assert_eq!(posts.get_post("a").unwrap().title, "A");
    assert_eq!(posts.get_post("b").unwrap().title, "B");
    assert!(posts.get_post("c").is_none());
    posts.add_post("a".to_string(), post("a", "A2"));
    assert_eq!(posts.get_post("a").unwrap().title, "A2");
}

#[test]
fn previews_are_the_first_three_of_the_list() {
    let mut posts = Posts::new();
    assert!(posts.previews().is_empty());
    for name in ["one", "two", "three", "four", "five"] {
        posts.add_post(name.to_string(), post(name, name));
    }
    let titles: Vec<String> = posts.previews().into_iter().map(|p| p.title).collect();
    assert_eq!(titles, vec!["one", "two", "three"]);
    posts.reverse();
    let previews = posts.previews();
    let titles: Vec<&str> = previews.iter().map(|p| p.title.as_str()).collect();
    assert_eq!(titles, vec!["five", "four", "three"]);
    assert_eq!(previews[0].name, "five");
    assert_eq!(previews[0].text, "<p>five</p>\n");
    assert_eq!(previews[0].abs, None);
    assert!(previews[0].published);
}

#[test]
fn previews_of_fewer_than_three() {
    let mut posts = Posts::new();
    posts.add_post("a".to_string(), post("a", "A"));
    posts.add_post("b".to_string(), post("b", "B"));
    posts.reverse();
    let titles: Vec<String> = posts.previews().into_iter().map(|p| p.title).collect();
    assert_eq!(titles, vec!["B", "A"]);
}

#[test]
fn previews_show_the_post_that_replaced_another() {
    let mut posts = Posts::new();
    posts.add_post("a".to_string(), post("a", "old"));
    posts.add_post("a".to_string(), post("a", "new"));
    let titles: Vec<String> = posts.previews().into_iter().map(|p| p.title).collect();
    assert_eq!(titles, vec!["new", "new"]);
}

#[test]
fn images_are_found_by_post_and_name() {
    let mut posts = Posts::new();
    posts.add_image(compound_name("trip", "sea.png"), Bytes::from_static(b"PNG"));
    posts.add_image(compound_name("trip", "hill.jpeg"), Bytes::from_static(b"JPEG"));
    assert!(posts.has_image("trip", "sea.png"));
    assert!(!posts.has_image("trip", "sea.jpg"));
    assert!(!posts.has_image("other", "sea.png"));
    let (bytes, mime) = posts.get_image("trip", "sea.png").unwrap();
    assert_eq!(&bytes[..], b"PNG");
    assert_eq!(mime, "image/png");
    let (bytes, mime) = posts.get_image("trip", "hill.jpeg").unwrap();
    assert_eq!(&bytes[..], b"JPEG");
    assert_eq!(mime, "image/jpeg");
    assert!(posts.get_image("trip", "none.png").is_none());
    assert!(posts.get_image("tri", "p/sea.png").is_none());
    posts.add_image(compound_name("trip", "sea.png"), Bytes::from_static(b"NEW"));
    assert_eq!(&posts.get_image("trip", "sea.png").unwrap().0[..], b"NEW");
}
