use md_image_cleaner::app::{App, Event};
use md_image_cleaner::catalog::Image;
use md_image_cleaner::rename::{rename_mapping, rename_plan, RenameError, RenamePlan};
use md_image_cleaner::scan::DirEntry;

fn used(abs_path: &str, raw_path: &str) -> Image {
    Image { abs_path: abs_path.to_string(), raw_path: Some(raw_path.to_string()), used: true }
}

fn pairs(items: &[(&str, &str)]) -> Vec<(String, String)> {
    items.iter().map(|(a, b)| (a.to_string(), b.to_string())).collect()
}

#[test]
fn rename_numbers_the_used_images_in_order() {
    let a = used("a.png", "./a.png");
    let b = used("b.jpg", "b.jpg");
    let text = "![a](./a.png)\n<img src=\"b.jpg\">\n";
    let plan = rename_plan(&vec![&a, &b], "note.md", text).unwrap();
    assert_eq!(
        plan,
        RenamePlan {
            mapping: pairs(&[("a.png", "1.png"), ("b.jpg", "2.jpg")]),
            copies: pairs(&[("b.jpg", "2.jpg"), ("a.png", "1.png")]),
            new_md_file_path: "note_new.md".to_string(),
            new_md_content: "![a](./1.png)\n<img src=\"2.jpg\">\n".to_string(),
        }
    );
}

#[test]
fn rename_keeps_directory_and_extension() {
    let a = used("/docs/note.assets/Screen Shot.PNG", "note.assets/Screen Shot.PNG");
    let b = used("/docs/note.assets/deep/b.tar.jpeg", "./note.assets\\deep\\b.tar.jpeg");
    let text = "![](note.assets/Screen Shot.PNG) <img src='./note.assets\\deep\\b.tar.jpeg'/>";
    let plan = rename_plan(&vec![&a, &b], "/docs/note.md", text).unwrap();
    assert_eq!(plan.mapping, pairs(&[("Screen Shot.PNG", "1.PNG"), ("b.tar.jpeg", "2.jpeg")]));
    assert_eq!(
        plan.copies,
        pairs(&[
            ("/docs/note.assets/deep/b.tar.jpeg", "/docs/note.assets/deep/2.jpeg"),
            ("/docs/note.assets/Screen Shot.PNG", "/docs/note.assets/1.PNG"),
        ])
    );
    assert_eq!(
        plan.new_md_content,
        "![](note.assets/1.PNG) <img src='./note.assets\\deep\\2.jpeg'/>"
    );
    assert_eq!(plan.new_md_file_path, "/docs/note_new.md");
}

#[test]
fn rename_rewrites_every_occurrence_of_a_reference() {
    let a = used("/d/a.png", "a.png");
    let text = "![one](a.png) ![two](a.png) <img src=\"a.png\">";
    let plan = rename_plan(&vec![&a], "/d/n.md", text).unwrap();
    assert_eq!(plan.new_md_content, "![one](1.png) ![two](1.png) <img src=\"1.png\">");
}

#[test]
fn rename_takes_the_last_image_first() {
    let x = used("/d/x.png", "x.png");
    let one = used("/d/1.png", "1.png");
    let plan = rename_plan(&vec![&x, &one], "/d/n.md", "![](x.png) ![](1.png)").unwrap();
    assert_eq!(plan.mapping, pairs(&[("x.png", "1.png"), ("1.png", "2.png")]));
    assert_eq!(plan.copies, pairs(&[("/d/1.png", "/d/2.png"), ("/d/x.png", "/d/1.png")]));
    assert_eq!(plan.new_md_content, "![](1.png) ![](2.png)");
}

#[test]
fn rename_of_nothing_leaves_the_text() {
    let plan = rename_plan(&vec![], "/d/n.md", "no images").unwrap();
    assert_eq!(
        plan,
        RenamePlan {
            mapping: vec![],
            copies: vec![],
            new_md_file_path: "/d/n_new.md".to_string(),
            new_md_content: "no images".to_string(),
        }
    );
}

#[test]
fn rename_numbers_past_nine() {
    let images: Vec<Image> =
        (0..12).map(|i| used(&format!("/d/img{}.gif", i), &format!("img{}.gif", i))).collect();
    let refs: Vec<&Image> = images.iter().collect();
    let mapping = rename_mapping(&refs).unwrap();
    assert_eq!(mapping[8], ("img8.gif".to_string(), "9.gif".to_string()));
    assert_eq!(mapping[9], ("img9.gif".to_string(), "10.gif".to_string()));
    assert_eq!(mapping[11], ("img11.gif".to_string(), "12.gif".to_string()));
}

#[test]
fn new_document_goes_beside_the_old() {
    for (md_path, expected) in [
        ("/docs/note.md", "/docs/note_new.md"),
        ("C:\\docs\\note.md", "C:\\docs\\note_new.md"),
        ("note.md", "note_new.md"),
        ("/docs/note.v2.md", "/docs/note.v2_new.md"),
        ("/docs/README", "/docs/README_new.md"),
    ] {
        assert_eq!(rename_plan(&vec![], md_path, "").unwrap().new_md_file_path, expected);
    }
}

#[test]
fn rename_fails_on_a_file_without_extension() {
    let a = used("/d/a.png", "a.png");
    let b = used("/d/README", "README");
    assert_eq!(rename_plan(&vec![&a, &b], "/d/n.md", ""), Err(RenameError::MissingExtension));
    assert_eq!(rename_mapping(&vec![&b, &a]), Err(RenameError::MissingExtension));
}

#[test]
fn rename_fails_on_an_image_without_reference() {
    let a = used("/d/a.png", "a.png");
    let b = Image { abs_path: "/d/b.png".to_string(), raw_path: None, used: true };
    assert_eq!(rename_plan(&vec![&b, &a], "/d/n.md", ""), Err(RenameError::MissingReference));
    assert_eq!(rename_mapping(&vec![&a, &b]), Err(RenameError::MissingReference));
}

#[test]
fn rename_fails_on_the_last_defect() {
    let no_extension = used("/d/README", "README");
    let no_reference = Image { abs_path: "/d/b.png".to_string(), raw_path: None, used: true };
    let neither = Image { abs_path: "/d/LICENSE".to_string(), raw_path: None, used: true };
    assert_eq!(
        rename_mapping(&vec![&no_extension, &no_reference]),
        Err(RenameError::MissingReference)
    );
    assert_eq!(
        rename_mapping(&vec![&no_reference, &no_extension]),
        Err(RenameError::MissingExtension)
    );
    assert_eq!(rename_mapping(&vec![&neither]), Err(RenameError::MissingExtension));
}

#[test]
fn session_without_document_plans_no_renaming() {
    let app = App::new();
    assert_eq!(app.rename_images("text"), Err(RenameError::NoDocument));
}

#[test]
fn session_renames_its_used_images_only() {
    let mut app = App::new();
    app.update(Event::MdFilePicked(Some("/docs/note.md".to_string())));
    app.update(Event::ImageDirPicked(Some("/docs".to_string())));
    let text = "![a](./a.png)\n<img src=\"b.jpg\">\n";
    app.update(Event::Scanned {
        entries: vec![
            DirEntry::File("/docs/c.gif".to_string()),
            DirEntry::File("/docs/a.png".to_string()),
            DirEntry::File("/docs/b.jpg".to_string()),
        ],
        document: Some(text.to_string()),
    });
    let used: Vec<&str> = app.used_images().iter().map(|i| i.abs_path.as_str()).collect();
    assert_eq!(used, vec!["/docs/a.png", "/docs/b.jpg"]);
    let plan = app.rename_images(text).unwrap();
    assert_eq!(plan.mapping, pairs(&[("a.png", "1.png"), ("b.jpg", "2.jpg")]));
    assert_eq!(
        plan.copies,
        pairs(&[("/docs/b.jpg", "/docs/2.jpg"), ("/docs/a.png", "/docs/1.png")])
    );
    assert_eq!(plan.new_md_content, "![a](./1.png)\n<img src=\"2.jpg\">\n");
    assert_eq!(plan.new_md_file_path, "/docs/note_new.md");
}

#[test]
fn renamed_document_refers_to_the_copies() {
    let mut app = App::new();
    app.update(Event::MdFilePicked(Some("/docs/note.md".to_string())));
    app.update(Event::ImageDirPicked(Some("/docs/img".to_string())));
    let text = "# Title\n![a](img/first.png)\n<img src=\"./img/second.jpg\" alt=\"x\">\n";
    app.update(Event::Scanned {
        entries: vec![
            DirEntry::File("/docs/img/first.png".to_string()),
            DirEntry::File("/docs/img/second.jpg".to_string()),
        ],
        document: Some(text.to_string()),
    });
    let plan = app.rename_images(text).unwrap();
    let targets: Vec<String> = plan.copies.iter().rev().map(|(_, to)| to.clone()).collect();
    assert_eq!(targets, vec!["/docs/img/1.png", "/docs/img/2.jpg"]);
    let again = App::find_md_images(&plan.new_md_file_path, &plan.new_md_content).unwrap();
    let resolved: Vec<String> = again.into_iter().map(|r| r.abs_path).collect();
    assert_eq!(resolved, targets);
}
