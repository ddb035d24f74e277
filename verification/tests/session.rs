use md_image_cleaner::app::{
    first_existing, image_dir_candidates, Action, App, Event, Failure, Message, Pending,
};
use md_image_cleaner::catalog::Image;
use md_image_cleaner::dialog::describe;
use md_image_cleaner::extract::PatternError;
use md_image_cleaner::rename::{RenameError, RenamePlan};
use md_image_cleaner::scan::DirEntry;

const TEXT: &str = "![a](./a.png)\n<img src=\"b.jpg\">\n";

fn file(path: &str) -> DirEntry {
    DirEntry::File(path.to_string())
}

fn some(text: &str) -> Option<String> {
    Some(text.to_string())
}

fn strings(items: &[&str]) -> Vec<String> {
    items.iter().map(|s| s.to_string()).collect()
}

fn scan_all() -> Action {
    Action::Scan { image_dir: some("/docs/note.assets"), md_file: some("/docs/note.md") }
}

fn session() -> App {
    let mut app = App::new();
    app.update(Event::MdFilePicked(some("/docs/note.md")));
    app.update(Event::ImageDirsProbed(vec![false, true]));
    app.update(Event::Scanned {
        entries: vec![
            file("/docs/note.assets/a.png"),
            file("/docs/note.assets/b.jpg"),
            file("/docs/note.assets/c.gif"),
            file("/docs/note.assets/notes.txt"),
        ],
        document: Some(
            "![a](note.assets/a.png)\n<img src=\"./note.assets/b.jpg\">\n".to_string(),
        ),
    });
    app
}

#[test]
fn new_session_is_empty() {
    let app = App::new();
    assert_eq!(app.md_file_path(), &None);
    assert_eq!(app.image_dir_path(), &None);
    assert_eq!(app.images(), &Vec::<Image>::new());
    assert_eq!(app.pending(), Pending::Idle);
    assert_eq!(app.title(), "Markdown Image Cleaner");
}

#[test]
fn scenario_catalog_of_three_files() {
    let mut app = App::new();
    app.update(Event::MdFilePicked(some("note.md")));
    app.update(Event::ImageDirPicked(some(".")));
    let actions = app.update(Event::Scanned {
        entries: vec![file("a.png"), file("b.jpg"), file("c.gif")],
        document: some(TEXT),
    });
    assert_eq!(actions, vec![]);
    let catalog: Vec<(&str, bool)> =
        app.images().iter().map(|i| (i.abs_path.as_str(), i.used)).collect();
    assert_eq!(catalog, vec![("a.png", true), ("b.jpg", true), ("c.gif", false)]);
    assert_eq!(app.find_remove_images(), vec!["c.gif"]);
}

#[test]
fn choosing_a_document_probes_for_its_images() {
    let mut app = App::new();
    assert_eq!(app.update(Event::Pressed(Message::SelectMdFile)), vec![Action::PickMdFile]);
    let actions = app.update(Event::MdFilePicked(some("/docs/note.md")));
    assert_eq!(
        actions,
        vec![Action::ProbeImageDirs(strings(&["/docs/note", "/docs/note.assets"]))]
    );
    assert_eq!(app.md_file_path(), &some("/docs/note.md"));
    assert_eq!(app.image_dir_path(), &None);
}

#[test]
fn first_directory_that_exists_wins() {
    let mut app = App::new();
    app.update(Event::MdFilePicked(some("/docs/note.md")));
    let actions = app.update(Event::ImageDirsProbed(vec![true, true]));
    assert_eq!(
        actions,
        vec![Action::Scan { image_dir: some("/docs/note"), md_file: some("/docs/note.md") }]
    );
    assert_eq!(app.image_dir_path(), &some("/docs/note"));

    let mut app = App::new();
    app.update(Event::MdFilePicked(some("/docs/note.md")));
    let actions = app.update(Event::ImageDirsProbed(vec![false, true]));
    assert_eq!(actions, vec![scan_all()]);
    assert_eq!(app.image_dir_path(), &some("/docs/note.assets"));
}

#[test]
fn no_directory_found_keeps_the_directory() {
    let mut app = App::new();
    app.update(Event::MdFilePicked(some("/docs/note.md")));
    let scan = vec![Action::Scan { image_dir: None, md_file: some("/docs/note.md") }];
    assert_eq!(app.update(Event::ImageDirsProbed(vec![false, false])), scan);
    assert_eq!(app.update(Event::ImageDirsProbed(vec![])), scan);
    assert_eq!(app.image_dir_path(), &None);

    let mut app = session();
    app.update(Event::MdFilePicked(some("/other/text.md")));
    assert_eq!(
        app.update(Event::ImageDirsProbed(vec![false, false])),
        vec![Action::Scan { image_dir: some("/docs/note.assets"), md_file: some("/other/text.md") }]
    );
    assert_eq!(app.image_dir_path(), &some("/docs/note.assets"));
}

#[test]
fn probing_without_document_does_nothing() {
    let mut fresh = App::new();
    assert_eq!(fresh.update(Event::ImageDirsProbed(vec![true, true])), vec![]);
    assert_eq!(fresh.image_dir_path(), &None);
}

#[test]
fn a_new_choice_discards_the_catalog() {
    let mut app = session();
    assert_eq!(app.images().len(), 3);
    app.update(Event::MdFilePicked(some("/other/text.md")));
    assert_eq!(app.images(), &Vec::<Image>::new());
    assert_eq!(app.md_file_path(), &some("/other/text.md"));

    let mut app = session();
    app.update(Event::ImageDirPicked(some("/pictures")));
    assert_eq!(app.images(), &Vec::<Image>::new());
    assert_eq!(app.image_dir_path(), &some("/pictures"));
    assert_eq!(app.md_file_path(), &some("/docs/note.md"));
}

#[test]
fn cancelled_choice_changes_nothing() {
    let mut app = session();
    assert_eq!(app.update(Event::MdFilePicked(None)), vec![]);
    assert_eq!(app.update(Event::ImageDirPicked(None)), vec![]);
    assert_eq!(app.md_file_path(), &some("/docs/note.md"));
    assert_eq!(app.image_dir_path(), &some("/docs/note.assets"));
    assert_eq!(app.images().len(), 3);
}

#[test]
fn choosing_a_directory_asks_for_a_scan() {
    let mut app = App::new();
    assert_eq!(app.update(Event::Pressed(Message::SelectImageDir)), vec![Action::PickImageDir]);
    let actions = app.update(Event::ImageDirPicked(some("/pictures")));
    assert_eq!(actions, vec![Action::Scan { image_dir: some("/pictures"), md_file: None }]);
    let actions = app.update(Event::Scanned {
        entries: vec![file("/pictures/a.png"), file("/pictures/b.txt")],
        document: None,
    });
    assert_eq!(actions, vec![]);
    assert_eq!(
        app.images(),
        &vec![Image { abs_path: "/pictures/a.png".to_string(), raw_path: None, used: false }]
    );
}

#[test]
fn refresh_asks_for_a_scan() {
    let mut app = session();
    assert_eq!(app.update(Event::Pressed(Message::FreshImages)), vec![scan_all()]);
    let mut empty = App::new();
    assert_eq!(
        empty.update(Event::Pressed(Message::FreshImages)),
        vec![Action::Scan { image_dir: None, md_file: None }]
    );
}

#[test]
fn scan_without_directory_catalogs_nothing() {
    let mut app = App::new();
    app.update(Event::MdFilePicked(some("/docs/note.md")));
    app.update(Event::Scanned { entries: vec![file("/docs/a.png")], document: some(TEXT) });
    assert_eq!(app.images(), &Vec::<Image>::new());
}

#[test]
fn unreadable_document_means_no_references() {
    let mut app = App::new();
    app.update(Event::MdFilePicked(some("/docs/note.md")));
    app.update(Event::ImageDirPicked(some("/docs")));
    app.update(Event::Scanned { entries: vec![file("/docs/a.png")], document: None });
    assert_eq!(
        app.images(),
        &vec![Image { abs_path: "/docs/a.png".to_string(), raw_path: None, used: false }]
    );
}

#[test]
fn fresh_images_replaces_the_catalog() {
    let mut app = session();
    assert_eq!(app.images().len(), 3);
    let done = app.fresh_images(&vec![file("/docs/note.assets/z.webp")], None);
    assert_eq!(done, Ok::<(), PatternError>(()));
    assert_eq!(
        app.images(),
        &vec![Image {
            abs_path: "/docs/note.assets/z.webp".to_string(),
            raw_path: None,
            used: false
        }]
    );
    let again = app.fresh_images(&vec![file("/docs/note.assets/z.webp")], None);
    assert_eq!(again, Ok::<(), PatternError>(()));
    assert_eq!(app.images().len(), 1);
}

#[test]
fn removal_is_asked_before_it_is_done() {
    let mut app = session();
    let actions = app.update(Event::Pressed(Message::RemoveImages));
    assert_eq!(
        actions,
        vec![Action::Confirm {
            title: "Remove Images".to_string(),
            description: "Are you sure to remove these 1 images?\n\n/docs/note.assets/c.gif"
                .to_string(),
        }]
    );
    assert_eq!(app.pending(), Pending::ConfirmingRemove);
    let actions = app.update(Event::Answered(true));
    assert_eq!(actions, vec![Action::Remove(strings(&["/docs/note.assets/c.gif"]))]);
    assert_eq!(app.pending(), Pending::Removing);
    let actions = app.update(Event::Removed(vec![true]));
    assert_eq!(
        actions,
        vec![
            Action::Inform {
                title: "Remove Images".to_string(),
                description: "Remove 1 images successfully!\n\n/docs/note.assets/c.gif"
                    .to_string(),
            },
            scan_all(),
        ]
    );
    assert_eq!(app.pending(), Pending::Idle);
}

#[test]
fn removal_reports_what_failed() {
    let mut app = App::new();
    app.update(Event::ImageDirPicked(some("/p")));
    app.update(Event::Scanned { entries: vec![file("/p/a.png"), file("/p/b.png")], document: None });
    app.update(Event::Pressed(Message::RemoveImages));
    app.update(Event::Answered(true));
    let actions = app.update(Event::Removed(vec![false, true]));
    assert_eq!(
        actions[0],
        Action::Inform {
            title: "Remove Images".to_string(),
            description:
                "Remove 1 images successfully!\n\n/p/b.png\n\nFailed to remove 1 images:\n\n/p/a.png"
                    .to_string(),
        }
    );
}

#[test]
fn a_no_removes_nothing() {
    let mut app = session();
    app.update(Event::Pressed(Message::RemoveImages));
    assert_eq!(app.update(Event::Answered(false)), vec![]);
    assert_eq!(app.pending(), Pending::Idle);
    assert_eq!(app.update(Event::Answered(true)), vec![]);
    assert_eq!(app.update(Event::Removed(vec![true])), vec![]);
}

#[test]
fn nothing_unused_is_said_so() {
    let mut app = App::new();
    let actions = app.update(Event::Pressed(Message::RemoveImages));
    assert_eq!(
        actions,
        vec![Action::Inform {
            title: "Remove Images".to_string(),
            description: "No images need to be removed!".to_string(),
        }]
    );
    assert_eq!(app.pending(), Pending::Idle);
    assert_eq!(app.update(Event::Answered(true)), vec![]);
    assert_eq!(app.find_remove_images(), Vec::<String>::new());
}

#[test]
fn an_unasked_yes_does_nothing() {
    let mut app = session();
    assert_eq!(app.update(Event::Answered(true)), vec![]);
    assert_eq!(app.update(Event::Removed(vec![true])), vec![]);
    assert_eq!(app.update(Event::DocumentRead("x".to_string())), vec![]);
    assert_eq!(app.update(Event::Renamed), vec![]);
    assert_eq!(app.images().len(), 3);
}

#[test]
fn a_scan_in_between_calls_the_question_off() {
    let mut app = session();
    app.update(Event::Pressed(Message::RemoveImages));
    app.update(Event::Scanned { entries: vec![file("/docs/note.assets/z.png")], document: None });
    assert_eq!(app.pending(), Pending::Idle);
    assert_eq!(app.update(Event::Answered(true)), vec![]);
}

#[test]
fn renaming_is_asked_planned_and_reported() {
    let mut app = session();
    let text = "![a](note.assets/a.png)\n<img src=\"./note.assets/b.jpg\">\n";
    let actions = app.update(Event::Pressed(Message::RenameImages));
    assert_eq!(
        actions,
        vec![Action::Confirm {
            title: "Rename Images".to_string(),
            description: "Are you sure to rename these 2 images?\n\na.png -> 1.png\nb.jpg -> 2.jpg"
                .to_string(),
        }]
    );
    assert_eq!(app.pending(), Pending::ConfirmingRename);
    let actions = app.update(Event::Answered(true));
    assert_eq!(actions, vec![Action::ReadDocument("/docs/note.md".to_string())]);
    let actions = app.update(Event::DocumentRead(text.to_string()));
    assert_eq!(
        actions,
        vec![Action::Rename(RenamePlan {
            mapping: vec![
                ("a.png".to_string(), "1.png".to_string()),
                ("b.jpg".to_string(), "2.jpg".to_string()),
            ],
            copies: vec![
                ("/docs/note.assets/b.jpg".to_string(), "/docs/note.assets/2.jpg".to_string()),
                ("/docs/note.assets/a.png".to_string(), "/docs/note.assets/1.png".to_string()),
            ],
            new_md_file_path: "/docs/note_new.md".to_string(),
            new_md_content: "![a](note.assets/1.png)\n<img src=\"./note.assets/2.jpg\">\n"
                .to_string(),
        })]
    );
    assert_eq!(app.pending(), Pending::Renaming);
    let actions = app.update(Event::Renamed);
    assert_eq!(
        actions,
        vec![
            Action::Inform {
                title: "Rename Images".to_string(),
                description: "Rename 2 images successfully!\n\na.png -> 1.png\nb.jpg -> 2.jpg\n\nNew md file save to:\n/docs/note_new.md"
                    .to_string(),
            },
            scan_all(),
        ]
    );
    assert_eq!(app.pending(), Pending::Idle);
}

#[test]
fn nothing_used_is_said_so() {
    let mut app = App::new();
    app.update(Event::ImageDirPicked(some("/p")));
    app.update(Event::Scanned { entries: vec![file("/p/a.png")], document: None });
    let actions = app.update(Event::Pressed(Message::RenameImages));
    assert_eq!(
        actions,
        vec![Action::Inform {
            title: "Rename Images".to_string(),
            description: "No images need to be renamed!".to_string(),
        }]
    );
    assert_eq!(app.pending(), Pending::Idle);
}

#[test]
fn a_no_renames_nothing() {
    let mut app = session();
    app.update(Event::Pressed(Message::RenameImages));
    assert_eq!(app.update(Event::Answered(false)), vec![]);
    assert_eq!(app.update(Event::DocumentRead("x".to_string())), vec![]);
}

#[test]
fn failures_are_values() {
    assert_ne!(
        Failure::Rename(RenameError::MissingExtension),
        Failure::Rename(RenameError::MissingReference)
    );
    assert_ne!(Failure::Pattern(PatternError::Markdown), Failure::Pattern(PatternError::Html));
}

#[test]
fn short_lists_are_shown_whole() {
    assert_eq!(App::get_description(vec![]), "");
    assert_eq!(App::get_description(strings(&["a"])), "a");
    let ten: Vec<String> = (1..=10).map(|i| i.to_string()).collect();
    assert_eq!(App::get_description(ten), "1\n2\n3\n4\n5\n6\n7\n8\n9\n10");
}

#[test]
fn long_lists_are_cut_in_the_middle() {
    let eleven: Vec<String> = (1..=11).map(|i| i.to_string()).collect();
    assert_eq!(describe(&eleven), "1\n2\n3\n4\n5\n...\n7\n8\n9\n10\n11");
    assert_eq!(App::get_description(eleven), "1\n2\n3\n4\n5\n...\n7\n8\n9\n10\n11");
    let many: Vec<String> = (1..=100).map(|i| i.to_string()).collect();
    assert_eq!(App::get_description(many), "1\n2\n3\n4\n5\n...\n96\n97\n98\n99\n100");
}

#[test]
fn images_are_looked_for_beside_the_document() {
    assert_eq!(image_dir_candidates("/docs/note.md"), vec!["/docs/note", "/docs/note.assets"]);
    assert_eq!(
        image_dir_candidates("C:\\docs\\my.note.md"),
        vec!["C:\\docs\\my.note", "C:\\docs\\my.note.assets"]
    );
    assert_eq!(image_dir_candidates("note"), vec!["note", "note.assets"]);
}

#[test]
fn first_existing_takes_the_first_that_is_there() {
    let candidates = strings(&["a", "b", "c"]);
    assert_eq!(first_existing(&candidates, &vec![false, true, true]), some("b"));
    assert_eq!(first_existing(&candidates, &vec![true, true, true]), some("a"));
    assert_eq!(first_existing(&candidates, &vec![false, false, false]), None);
    assert_eq!(first_existing(&candidates, &vec![false]), None);
    assert_eq!(first_existing(&candidates, &vec![false, false, false, true]), None);
    assert_eq!(first_existing(&vec![], &vec![true]), None);
}
