use md_image_cleaner::app::App;
use md_image_cleaner::extract::references_from;
use md_image_cleaner::extract::{HTML_IMAGE, MARKDOWN_IMAGE};

#[test]
fn test_regex_images() {
    let md_format = regex::Regex::new(r"!\[.*?\]\((.*?)\)").unwrap();
    let html_format = regex::Regex::new(r#"<img[^>]*?src\s*=\s*["']?([^"'>]+)[^>]*>"#).unwrap();
    let text = r#"
# Test Regex Images
![image](./image.png)
<img src="./image.png" />
<img src="Android XXXX.assets/image-20230523174346232.png" alt="image-20230523174346232" style="zoom: 67%;" />
"#;
    for cap in md_format.captures_iter(text) {
        println!("{}", &cap[1]);
    }
    for cap in html_format.captures_iter(text) {
        println!("{}", &cap[1]);
    }
    assert_eq!(md_format.as_str(), MARKDOWN_IMAGE);
    assert_eq!(html_format.as_str(), HTML_IMAGE);
    let found = App::find_md_images("/docs/note.md", text).unwrap();
    let raw: Vec<&str> = found.iter().map(|r| r.raw_path.as_str()).collect();
    assert_eq!(
        raw,
        vec![
            "./image.png",
            "./image.png",
            "Android XXXX.assets/image-20230523174346232.png"
        ]
    );
    let abs: Vec<&str> = found.iter().map(|r| r.abs_path.as_str()).collect();
    assert_eq!(
        abs,
        vec![
            "/docs/image.png",
            "/docs/image.png",
            "/docs/Android XXXX.assets/image-20230523174346232.png"
        ]
    );
}

#[test]
fn markdown_references_come_before_html_references() {
    let text = "<img src=\"h1.png\"> ![m1](m1.png) <img class='x' src='h2.png'> ![m2](m2.png)";
    let found = App::find_md_images("/d/n.md", text).unwrap();
    let raw: Vec<&str> = found.iter().map(|r| r.raw_path.as_str()).collect();
    assert_eq!(raw, vec!["m1.png", "m2.png", "h1.png", "h2.png"]);
}

#[test]
fn every_reference_is_kept() {
    let text = "![a](a.png) ![again](a.png) <img src=a.png>";
    let found = App::find_md_images("/d/n.md", text).unwrap();
    assert_eq!(found.len(), 3);
    for reference in &found {
        assert_eq!(reference.raw_path, "a.png");
        assert_eq!(reference.abs_path, "/d/a.png");
    }
}

#[test]
fn markdown_target_is_the_shortest_run() {
    let found = App::find_md_images("n.md", "![a](x.png) and (more) ![b]()").unwrap();
    let raw: Vec<&str> = found.iter().map(|r| r.raw_path.as_str()).collect();
    assert_eq!(raw, vec!["x.png", ""]);
}

#[test]
fn text_without_images_has_no_references() {
    assert_eq!(App::find_md_images("/d/n.md", "# Title\n\nplain [link](x.png)\n").unwrap(), vec![]);
    assert_eq!(App::find_md_images("/d/n.md", "").unwrap(), vec![]);
}

#[test]
fn references_resolve_against_the_document() {
    let found = App::find_md_images("C:\\docs\\n.md", "![a](img\\a.png) ![b](/abs/b.png)").unwrap();
    let abs: Vec<&str> = found.iter().map(|r| r.abs_path.as_str()).collect();
    assert_eq!(abs, vec!["C:/docs/img/a.png", "/abs/b.png"]);
}

#[test]
fn a_match_without_target_gives_no_reference() {
    let groups = vec![Some("a.png".to_string()), None, Some("./b.png".to_string())];
    let found = references_from("/d/n.md", &groups);
    let pairs: Vec<(&str, &str)> =
        found.iter().map(|r| (r.abs_path.as_str(), r.raw_path.as_str())).collect();
    assert_eq!(pairs, vec![("/d/a.png", "a.png"), ("/d/b.png", "./b.png")]);
}
