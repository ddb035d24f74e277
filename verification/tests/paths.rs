use md_image_cleaner::path::{canonicalize, directory, extension, file_name, resolve, stem};

#[test]
fn directory_ends_with_the_last_separator() {
    assert_eq!(directory("/docs/note.md"), "/docs/");
    assert_eq!(directory("C:\\docs\\note.md"), "C:\\docs\\");
    assert_eq!(directory("/note.md"), "/");
    assert_eq!(directory("note.md"), "");
    assert_eq!(directory(""), "");
    assert_eq!(directory("/docs/"), "/docs/");
}

#[test]
fn file_name_follows_the_last_separator() {
    assert_eq!(file_name("/docs/note.md"), "note.md");
    assert_eq!(file_name("C:\\docs\\img/a.png"), "a.png");
    assert_eq!(file_name("a.png"), "a.png");
    assert_eq!(file_name("/docs/"), "");
    assert_eq!(file_name(""), "");
}

#[test]
fn extension_follows_the_last_dot_of_the_name() {
    assert_eq!(extension("/docs/a.png"), Some("png"));
    assert_eq!(extension("a.tar.gz"), Some("gz"));
    assert_eq!(extension("a."), Some(""));
    assert_eq!(extension("/docs/README"), None);
    assert_eq!(extension(".gitignore"), None);
    assert_eq!(extension("/a.b/readme"), None);
    assert_eq!(extension(""), None);
    assert_eq!(extension(".hidden.png"), Some("png"));
}

#[test]
fn stem_is_the_name_without_extension() {
    assert_eq!(stem("/docs/note.md"), "note");
    assert_eq!(stem("a.tar.gz"), "a.tar");
    assert_eq!(stem(".gitignore"), ".gitignore");
    assert_eq!(stem("/docs/README"), "README");
    assert_eq!(stem("a."), "a");
}

#[test]
fn canonical_spelling_joins_the_components() {
    assert_eq!(canonicalize("/docs/./a.png"), "/docs/a.png");
    assert_eq!(canonicalize("/docs//img/a.png"), "/docs/img/a.png");
    assert_eq!(canonicalize("docs\\img\\a.png"), "docs/img/a.png");
    assert_eq!(canonicalize("C:\\docs\\a.png"), "C:/docs/a.png");
    assert_eq!(canonicalize("./a.png"), "a.png");
    assert_eq!(canonicalize("/docs/img/"), "/docs/img");
    assert_eq!(canonicalize("/"), "/");
    assert_eq!(canonicalize(""), "");
    assert_eq!(canonicalize("."), "");
    assert_eq!(canonicalize("../a.png"), "../a.png");
    assert_eq!(canonicalize("a..b/.c"), "a..b/.c");
}

#[test]
fn canonical_spelling_is_stable() {
    for path in ["/docs/./a.png", "docs\\img\\a.png", "./a.png", "/", "", "a//b/./c/"] {
        let once = canonicalize(path);
        assert_eq!(canonicalize(&once), once);
    }
}

#[test]
fn resolve_joins_target_to_the_directory_of_the_document() {
    assert_eq!(resolve("/docs/note.md", "a.png"), "/docs/a.png");
    assert_eq!(resolve("/docs/note.md", "./a.png"), "/docs/a.png");
    assert_eq!(resolve("/docs/note.md", "img/a.png"), "/docs/img/a.png");
    assert_eq!(resolve("/docs/note.md", "img\\a.png"), "/docs/img/a.png");
    assert_eq!(resolve("C:\\docs\\note.md", "note.assets/a.png"), "C:/docs/note.assets/a.png");
    assert_eq!(resolve("note.md", "./a.png"), "a.png");
}

#[test]
fn resolve_keeps_a_target_that_starts_at_the_root() {
    assert_eq!(resolve("/docs/note.md", "/pictures/a.png"), "/pictures/a.png");
    assert_eq!(resolve("/docs/note.md", "\\pictures\\a.png"), "/pictures/a.png");
}

#[test]
fn plain_paths_are_read_as_the_standard_library_reads_them() {
    for path in [
        "/docs/note.md",
        "/docs/img/a.png",
        "a.png",
        "/docs/archive.tar.gz",
        "/docs/README",
        "/docs/.gitignore",
        "relative/dir/file.jpeg",
        "/a.b/c",
    ] {
        let std_path = std::path::Path::new(path);
        assert_eq!(Some(file_name(path)), std_path.file_name().and_then(|n| n.to_str()));
        assert_eq!(extension(path), std_path.extension().and_then(|e| e.to_str()));
        assert_eq!(Some(stem(path)), std_path.file_stem().and_then(|s| s.to_str()));
        let joined = format!("{}{}", directory(path), file_name(path));
        assert_eq!(joined, path);
    }
}

#[test]
fn paths_with_the_same_components_have_one_spelling() {
    let spellings =
        ["/docs/img/a.png", "/docs//img/a.png", "/docs/./img/./a.png", "\\docs\\img\\a.png", "/docs/img/a.png/"];
    for spelling in spellings {
        assert_eq!(canonicalize(spelling), "/docs/img/a.png");
        assert_eq!(
            std::path::Path::new(&spelling.replace('\\', "/")),
            std::path::Path::new("/docs/img/a.png")
        );
    }
    assert_ne!(canonicalize("docs/img/a.png"), "/docs/img/a.png");
    assert_ne!(canonicalize("/docs/img/A.png"), "/docs/img/a.png");
}
