use md_image_cleaner::app::App;
use md_image_cleaner::scan::{is_image, DirEntry};

fn file(path: &str) -> DirEntry {
    DirEntry::File(path.to_string())
}

#[test]
fn images_are_known_by_extension() {
    for path in ["a.png", "a.jpg", "a.jpeg", "a.gif", "a.webp", "/x/y.z/a.png"] {
        assert!(is_image(path), "{}", path);
    }
    for path in ["a.txt", "a.svg", "a.bmp", "png", "a.png.txt", "a.pn", "a.pngx", "a.", ""] {
        assert!(!is_image(path), "{}", path);
    }
}

#[test]
fn extension_case_does_not_matter() {
    for path in ["a.PNG", "a.Jpg", "a.JPEG", "a.GiF", "a.WebP"] {
        assert!(is_image(path), "{}", path);
    }
}

#[test]
fn files_without_extension_are_no_images() {
    assert!(!is_image("/docs/README"));
    assert!(!is_image("/docs/.png"));
    assert!(!is_image("/docs.png/readme"));
}

#[test]
fn scan_excludes_files_outside_the_allow_list() {
    let entries = vec![file("a.png"), file("notes.txt"), file("logo.svg"), file("b.jpg")];
    assert_eq!(App::find_dir_images(&entries), vec!["a.png", "b.jpg"]);
}

#[test]
fn scan_goes_depth_first_in_listing_order() {
    let entries = vec![
        file("/d/z.png"),
        DirEntry::Dir(vec![
            file("/d/sub/b.gif"),
            DirEntry::Dir(vec![file("/d/sub/deep/c.webp"), file("/d/sub/deep/c.txt")]),
            file("/d/sub/a.jpeg"),
        ]),
        DirEntry::Dir(vec![]),
        file("/d/a.png"),
    ];
    assert_eq!(
        App::find_dir_images(&entries),
        vec!["/d/z.png", "/d/sub/b.gif", "/d/sub/deep/c.webp", "/d/sub/a.jpeg", "/d/a.png"]
    );
}

#[test]
fn scan_of_nothing_finds_nothing() {
    assert_eq!(App::find_dir_images(&vec![]), Vec::<String>::new());
    assert_eq!(App::find_dir_images(&vec![DirEntry::Dir(vec![])]), Vec::<String>::new());
}
