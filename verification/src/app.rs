//! The session: the document and image directory chosen so far, the
//! catalog built from them, and what the session does about each thing
//! that happens.
//!
//! The session touches nothing outside itself. `App::update` takes what
//! happened and answers with what is to be done; whoever runs the session
//! does it and reports back.

use crate::catalog::{
    all_wf, lemma_refreshed_is_wf, reads_document, refreshed, unused_paths, Image, ImageModel,
};
use crate::cleanup::{delete_report, report_of, DeleteReport};
use crate::dialog::{
    describe, description_of, remove_question, remove_question_of, removed_text, removed_text_of,
    rename_question, rename_question_of, renamed_text, renamed_text_of, NOTHING_TO_REMOVE,
    NOTHING_TO_RENAME, REMOVE_TITLE, RENAME_TITLE,
};
use crate::extract::{refused_pattern, PatternError};
use crate::path::{directory, directory_of, stem, stem_of};
use crate::rename::{
    first_defect, lemma_session_can_rename, mapping_of, new_document_path, rename_mapping,
    rename_outcome, used_of, RenameError, RenamePlan, RenamePlanModel,
};
use crate::scan::{is_image_path, DirEntry};
use vstd::prelude::*;

verus! {

/// What the user can ask for.
#[derive(Debug, Clone, Copy, PartialEq, Eq)]
pub enum Message {
    /// Choose the markdown document.
    SelectMdFile,
    /// Choose the directory that holds the document's images.
    SelectImageDir,
    /// Build the catalog anew.
    FreshImages,
    /// Remove the images that the document does not use.
    RemoveImages,
    /// Rename the used images to 1, 2, 3, ...
    RenameImages,
}

/// What a session is waiting for.
#[derive(Debug, Clone, Copy, PartialEq, Eq)]
pub enum Pending {
    /// Nothing.
    Idle,
    /// The answer to whether the unused images shall be removed.
    ConfirmingRemove,
    /// The outcome of removing the unused images.
    Removing,
    /// The answer to whether the used images shall be renamed.
    ConfirmingRename,
    /// The text of the document, to rewrite it.
    ReadingDocument,
    /// The outcome of carrying out a renaming.
    Renaming,
}

impl Pending {
    /// Whether a renaming is under way: asked for, planned or carried out.
    pub open spec fn is_renaming(self) -> bool {
        self == Pending::ConfirmingRename || self == Pending::ReadingDocument || self
            == Pending::Renaming
    }
}

/// Why a session gives up on what it was asked.
#[derive(Debug, Clone, Copy, PartialEq, Eq)]
pub enum Failure {
    /// A pattern for finding references was refused.
    Pattern(PatternError),
    /// The renaming cannot be planned.
    Rename(RenameError),
}

/// Something that happened, told to the session.
#[derive(Debug, PartialEq, Eq)]
pub enum Event {
    /// The user asked for something.
    Pressed(Message),
    /// The user chose a document, or chose none.
    MdFilePicked(Option<String>),
    /// The user chose an image directory, or chose none.
    ImageDirPicked(Option<String>),
    /// For each path that was to be probed, whether a directory is there.
    ImageDirsProbed(Vec<bool>),
    /// The image directory was listed and the document read, each as far
    /// as it could be.
    Scanned { entries: Vec<DirEntry>, document: Option<String> },
    /// The user answered a question with yes or no.
    Answered(bool),
    /// The files were removed: for each, whether it was.
    Removed(Vec<bool>),
    /// The document was read, to rewrite it.
    DocumentRead(String),
    /// The plan of a renaming was carried out.
    Renamed,
}

/// Something to be done for the session.
#[derive(Debug, PartialEq, Eq)]
pub enum Action {
    /// Let the user choose a document; report `MdFilePicked`.
    PickMdFile,
    /// Let the user choose an image directory; report `ImageDirPicked`.
    PickImageDir,
    /// Find out which of these paths are directories; report
    /// `ImageDirsProbed`.
    ProbeImageDirs(Vec<String>),
    /// List the image directory and read the document, where one is
    /// given; report `Scanned`.
    Scan { image_dir: Option<String>, md_file: Option<String> },
    /// Tell the user something.
    Inform { title: String, description: String },
    /// Ask the user a question; report `Answered`.
    Confirm { title: String, description: String },
    /// Remove these files, one by one; report `Removed`.
    Remove(Vec<String>),
    /// Read the document at this path; report `DocumentRead`.
    ReadDocument(String),
    /// Carry out this plan: copy the files, then write the new document;
    /// report `Renamed`.
    Rename(RenamePlan),
    /// Give up, loudly.
    Fail(Failure),
}

/// An `Event` as plain text.
pub ghost enum EventModel {
    Pressed(Message),
    MdFilePicked(Option<Seq<char>>),
    ImageDirPicked(Option<Seq<char>>),
    ImageDirsProbed(Seq<bool>),
    Scanned { entries: Seq<DirEntry>, document: Option<Seq<char>> },
    Answered(bool),
    Removed(Seq<bool>),
    DocumentRead(Seq<char>),
    Renamed,
}

/// An `Action` as plain text.
pub ghost enum ActionModel {
    PickMdFile,
    PickImageDir,
    ProbeImageDirs(Seq<Seq<char>>),
    Scan { image_dir: Option<Seq<char>>, md_file: Option<Seq<char>> },
    Inform { title: Seq<char>, description: Seq<char> },
    Confirm { title: Seq<char>, description: Seq<char> },
    Remove(Seq<Seq<char>>),
    ReadDocument(Seq<char>),
    Rename(RenamePlanModel),
    Fail(Failure),
}

impl DeepView for Event {
    type V = EventModel;

    open spec fn deep_view(&self) -> EventModel {
        match self {
            Event::Pressed(message) => EventModel::Pressed(*message),
            Event::MdFilePicked(picked) => EventModel::MdFilePicked(picked.deep_view()),
            Event::ImageDirPicked(picked) => EventModel::ImageDirPicked(picked.deep_view()),
            Event::ImageDirsProbed(found) => EventModel::ImageDirsProbed(found@),
            Event::Scanned { entries, document } => EventModel::Scanned {
                entries: entries@,
                document: document.deep_view(),
            },
            Event::Answered(yes) => EventModel::Answered(*yes),
            Event::Removed(removed) => EventModel::Removed(removed@),
            Event::DocumentRead(text) => EventModel::DocumentRead(text@),
            Event::Renamed => EventModel::Renamed,
        }
    }
}

impl DeepView for Action {
    type V = ActionModel;

    open spec fn deep_view(&self) -> ActionModel {
        match self {
            Action::PickMdFile => ActionModel::PickMdFile,
            Action::PickImageDir => ActionModel::PickImageDir,
            Action::ProbeImageDirs(paths) => ActionModel::ProbeImageDirs(paths.deep_view()),
            Action::Scan { image_dir, md_file } => ActionModel::Scan {
                image_dir: image_dir.deep_view(),
                md_file: md_file.deep_view(),
            },
            Action::Inform { title, description } => ActionModel::Inform {
                title: title@,
                description: description@,
            },
            Action::Confirm { title, description } => ActionModel::Confirm {
                title: title@,
                description: description@,
            },
            Action::Remove(paths) => ActionModel::Remove(paths.deep_view()),
            Action::ReadDocument(path) => ActionModel::ReadDocument(path@),
            Action::Rename(plan) => ActionModel::Rename(plan.deep_view()),
            Action::Fail(failure) => ActionModel::Fail(*failure),
        }
    }
}

/// The state of a session.
pub struct App {
    md_file_path: Option<String>,
    image_dir_path: Option<String>,
    images: Vec<Image>,
    pending: Pending,
}

/// An `App` as plain text.
pub ghost struct AppModel {
    pub md_file_path: Option<Seq<char>>,
    pub image_dir_path: Option<Seq<char>>,
    pub images: Seq<ImageModel>,
    pub pending: Pending,
}

impl View for App {
    type V = AppModel;

    closed spec fn view(&self) -> AppModel {
        AppModel {
            md_file_path: self.md_file_path.deep_view(),
            image_dir_path: self.image_dir_path.deep_view(),
            images: self.images.deep_view(),
            pending: self.pending,
        }
    }
}

impl AppModel {
    /// What holds of every session: every file of the catalog is an image
    /// file, used exactly when a reference to it is known, and that
    /// reference, written in the document chosen, names the file; without
    /// a document no renaming is under way.
    pub open spec fn wf(self) -> bool {
        &&& all_wf(self.images)
        &&& forall|i: int|
            0 <= i < self.images.len() ==> is_image_path((#[trigger] self.images[i]).abs_path)
        &&& forall|i: int|
            0 <= i < self.images.len() ==> (#[trigger] self.images[i]).is_named_from(
                self.md_file_path,
            )
        &&& self.md_file_path is None ==> !self.pending.is_renaming()
    }

    /// The session with its catalog discarded, waiting for nothing.
    pub open spec fn discarded(self) -> AppModel {
        AppModel { images: Seq::empty(), pending: Pending::Idle, ..self }
    }

    /// The session, waiting for nothing.
    pub open spec fn idle(self) -> AppModel {
        AppModel { pending: Pending::Idle, ..self }
    }

    /// The session, waiting for `pending`.
    pub open spec fn waiting(self, pending: Pending) -> AppModel {
        AppModel { pending, ..self }
    }

    /// What is to be listed and read to build the catalog.
    pub open spec fn scan(self) -> ActionModel {
        ActionModel::Scan { image_dir: self.image_dir_path, md_file: self.md_file_path }
    }
}

/// Where the images of the document at `md_path` are looked for: the
/// document's path without its extension, and the same followed by
/// `.assets`.
pub open spec fn image_dir_candidates_of(md_path: Seq<char>) -> Seq<Seq<char>> {
    seq![
        directory_of(md_path) + stem_of(md_path),
        directory_of(md_path) + stem_of(md_path) + ".assets"@,
    ]
}

/// The first of `candidates` that is there, if one is: `found[i]` tells
/// whether `candidates[i]` is.
pub open spec fn first_found(candidates: Seq<Seq<char>>, found: Seq<bool>) -> Option<Seq<char>>
    decreases candidates.len(),
{
    if candidates.len() == 0 {
        None
    } else if first_found(candidates.drop_last(), found) is Some {
        first_found(candidates.drop_last(), found)
    } else if candidates.len() <= found.len() && found[candidates.len() - 1] {
        Some(candidates.last())
    } else {
        None
    }
}

/// What a session does when the user asks for something.
pub open spec fn on_pressed(app: AppModel, message: Message) -> (AppModel, Seq<ActionModel>) {
    match message {
        Message::SelectMdFile => (app.idle(), seq![ActionModel::PickMdFile]),
        Message::SelectImageDir => (app.idle(), seq![ActionModel::PickImageDir]),
        Message::FreshImages => (app.idle(), seq![app.scan()]),
        Message::RemoveImages => if unused_paths(app.images).len() == 0 {
            (
                app.idle(),
                seq![
                    ActionModel::Inform { title: REMOVE_TITLE@, description: NOTHING_TO_REMOVE@ },
                ],
            )
        } else {
            (
                app.waiting(Pending::ConfirmingRemove),
                seq![
                    ActionModel::Confirm {
                        title: REMOVE_TITLE@,
                        description: remove_question_of(unused_paths(app.images)),
                    },
                ],
            )
        },
        Message::RenameImages => if used_of(app.images).len() == 0 {
            (
                app.idle(),
                seq![
                    ActionModel::Inform { title: RENAME_TITLE@, description: NOTHING_TO_RENAME@ },
                ],
            )
        } else {
            match first_defect(used_of(app.images)) {
                Some(defect) => (
                    app.idle(),
                    seq![ActionModel::Fail(Failure::Rename(defect))],
                ),
                None => (
                    app.waiting(Pending::ConfirmingRename),
                    seq![
                        ActionModel::Confirm {
                            title: RENAME_TITLE@,
                            description: rename_question_of(mapping_of(used_of(app.images))),
                        },
                    ],
                ),
            }
        },
    }
}

/// What a session does when the user has chosen a document, or none: a
/// new document takes the place of the old, the catalog is discarded, and
/// the places where the document's images may be are to be probed.
pub open spec fn on_md_file_picked(app: AppModel, picked: Option<Seq<char>>) -> (
    AppModel,
    Seq<ActionModel>,
) {
    match picked {
        Some(path) => (
            AppModel { md_file_path: Some(path), ..app.discarded() },
            seq![ActionModel::ProbeImageDirs(image_dir_candidates_of(path))],
        ),
        None => (app.idle(), Seq::empty()),
    }
}

/// A session once `dir` is its image directory, its catalog discarded, and
/// the scan it then asks for.
pub open spec fn with_image_dir(app: AppModel, dir: Seq<char>) -> (AppModel, Seq<ActionModel>) {
    let next = AppModel { image_dir_path: Some(dir), ..app.discarded() };
    (next, seq![next.scan()])
}

/// What a session does when the user has chosen an image directory, or
/// none.
pub open spec fn on_image_dir_picked(app: AppModel, picked: Option<Seq<char>>) -> (
    AppModel,
    Seq<ActionModel>,
) {
    match picked {
        Some(dir) => with_image_dir(app, dir),
        None => (app.idle(), Seq::empty()),
    }
}

/// What a session does when it learns which of the places where the
/// document's images may be are there: the first that is becomes its image
/// directory; if none is, the directory stays. Either way it asks for a
/// scan.
pub open spec fn on_image_dirs_probed(app: AppModel, found: Seq<bool>) -> (
    AppModel,
    Seq<ActionModel>,
) {
    match app.md_file_path {
        Some(path) => match first_found(image_dir_candidates_of(path), found) {
            Some(dir) => with_image_dir(app, dir),
            None => (app.idle(), seq![app.scan()]),
        },
        None => (app.idle(), Seq::empty()),
    }
}

/// What a session does with a listing of its image directory and the text
/// of its document: it builds its catalog anew, unless it is to read the
/// document and a pattern is refused.
pub open spec fn on_scanned(app: AppModel, entries: Seq<DirEntry>, document: Option<Seq<char>>)
    -> (AppModel, Seq<ActionModel>) {
    match refused_pattern() {
        Some(refused) if reads_document(app, document) => (
            app.idle(),
            seq![ActionModel::Fail(Failure::Pattern(refused))],
        ),
        _ => (refreshed(app, entries, document), Seq::empty()),
    }
}

/// What a session does with the answer to a question. Only a yes to the
/// question it asked last sets anything going.
pub open spec fn on_answered(app: AppModel, yes: bool) -> (AppModel, Seq<ActionModel>) {
    match app.pending {
        Pending::ConfirmingRemove => if yes && unused_paths(app.images).len() > 0 {
            (
                app.waiting(Pending::Removing),
                seq![ActionModel::Remove(unused_paths(app.images))],
            )
        } else {
            (app.idle(), Seq::empty())
        },
        Pending::ConfirmingRename => if yes {
            match app.md_file_path {
                Some(path) => (
                    app.waiting(Pending::ReadingDocument),
                    seq![ActionModel::ReadDocument(path)],
                ),
                None => (
                    app.idle(),
                    seq![ActionModel::Fail(Failure::Rename(RenameError::NoDocument))],
                ),
            }
        } else {
            (app.idle(), Seq::empty())
        },
        _ => (app.idle(), Seq::empty()),
    }
}

/// What a session does when the files it wanted removed were gone
/// through: it says what came of it and asks for a scan.
pub open spec fn on_removed(app: AppModel, removed: Seq<bool>) -> (AppModel, Seq<ActionModel>) {
    match app.pending {
        Pending::Removing => (
            app.idle(),
            seq![
                ActionModel::Inform {
                    title: REMOVE_TITLE@,
                    description: removed_text_of(report_of(unused_paths(app.images), removed)),
                },
                app.scan(),
            ],
        ),
        _ => (app.idle(), Seq::empty()),
    }
}

/// What a session does with the text of its document, read to rewrite
/// it: it plans the renaming.
pub open spec fn on_document_read(app: AppModel, text: Seq<char>) -> (AppModel, Seq<ActionModel>) {
    match app.pending {
        Pending::ReadingDocument => match rename_outcome(app, text) {
            Ok(plan) => (app.waiting(Pending::Renaming), seq![ActionModel::Rename(plan)]),
            Err(defect) => (app.idle(), seq![ActionModel::Fail(Failure::Rename(defect))]),
        },
        _ => (app.idle(), Seq::empty()),
    }
}

/// What a session does when its plan of a renaming was carried out: it
/// says what was renamed and where the new document is, and asks for a
/// scan.
pub open spec fn on_renamed(app: AppModel) -> (AppModel, Seq<ActionModel>) {
    match app.pending {
        Pending::Renaming => match (app.md_file_path, first_defect(used_of(app.images))) {
            (Some(path), None) => (
                app.idle(),
                seq![
                    ActionModel::Inform {
                        title: RENAME_TITLE@,
                        description: renamed_text_of(
                            mapping_of(used_of(app.images)),
                            new_document_path(path),
                        ),
                    },
                    app.scan(),
                ],
            ),
            (None, _) => (
                app.idle(),
                seq![ActionModel::Fail(Failure::Rename(RenameError::NoDocument))],
            ),
            (Some(_), Some(defect)) => (
                app.idle(),
                seq![ActionModel::Fail(Failure::Rename(defect))],
            ),
        },
        _ => (app.idle(), Seq::empty()),
    }
}

/// What a session does about `event`: the session afterwards, and what is
/// to be done for it, in order.
pub open spec fn step(app: AppModel, event: EventModel) -> (AppModel, Seq<ActionModel>) {
    match event {
        EventModel::Pressed(message) => on_pressed(app, message),
        EventModel::MdFilePicked(picked) => on_md_file_picked(app, picked),
        EventModel::ImageDirPicked(picked) => on_image_dir_picked(app, picked),
        EventModel::ImageDirsProbed(found) => on_image_dirs_probed(app, found),
        EventModel::Scanned { entries, document } => on_scanned(app, entries, document),
        EventModel::Answered(yes) => on_answered(app, yes),
        EventModel::Removed(removed) => on_removed(app, removed),
        EventModel::DocumentRead(text) => on_document_read(app, text),
        EventModel::Renamed => on_renamed(app),
    }
}

/// Whatever happens, a session stays as every session is.
pub proof fn lemma_step_keeps_wf(app: AppModel, event: EventModel)
    requires
        app.wf(),
    ensures
        step(app, event).0.wf(),
{
    match event {
        EventModel::Scanned { entries, document } => {
            lemma_refreshed_is_wf(app, entries, document);
        },
        EventModel::Pressed(message) => {
            lemma_session_can_rename(app);
        },
        _ => {},
    }
}

/// A session never gives up on a renaming: it gives up only where a
/// pattern for finding references is refused.
pub proof fn lemma_gives_up_on_patterns_only(app: AppModel, event: EventModel, i: int)
    requires
        app.wf(),
        0 <= i < step(app, event).1.len(),
        step(app, event).1[i] is Fail,
    ensures
        event is Scanned,
        step(app, event).1[i]->Fail_0 is Pattern,
{
    lemma_session_can_rename(app);
}

/// A session with no unused image removes nothing: asked to, it says that
/// there is nothing to remove and stays as it is, and whatever else
/// happens, it never has a file removed.
pub proof fn lemma_nothing_to_remove(app: AppModel, event: EventModel)
    requires
        unused_paths(app.images).len() == 0,
    ensures
        step(app, EventModel::Pressed(Message::RemoveImages)) == (
            app.idle(),
            seq![ActionModel::Inform { title: REMOVE_TITLE@, description: NOTHING_TO_REMOVE@ }],
        ),
        forall|i: int|
            0 <= i < step(app, event).1.len() ==> !(#[trigger] step(app, event).1[i] is Remove),
{
}

/// A session has files removed only on a yes to its question whether to
/// remove them, and then exactly its unused images.
pub proof fn lemma_removes_unused_only(app: AppModel, event: EventModel, i: int)
    requires
        0 <= i < step(app, event).1.len(),
        step(app, event).1[i] is Remove,
    ensures
        event == EventModel::Answered(true),
        app.pending == Pending::ConfirmingRemove,
        step(app, event).1[i] == ActionModel::Remove(unused_paths(app.images)),
{
}

/// A session has a renaming carried out only when it has read its
/// document after a yes to its question whether to rename.
pub proof fn lemma_renames_on_plan_only(app: AppModel, event: EventModel, i: int)
    requires
        0 <= i < step(app, event).1.len(),
        step(app, event).1[i] is Rename,
    ensures
        event is DocumentRead,
        app.pending == Pending::ReadingDocument,
        rename_outcome(app, event->DocumentRead_0) == Ok::<RenamePlanModel, RenameError>(
            step(app, event).1[i]->Rename_0,
        ),
{
}

fn copy_of(path: &Option<String>) -> (copy: Option<String>)
    ensures
        copy.deep_view() == path.deep_view(),
{
    match path {
        Some(path) => Some(path.clone()),
        None => None,
    }
}

fn one(action: Action) -> (actions: Vec<Action>)
    ensures
        actions.deep_view() == seq![action.deep_view()],
{
    let mut actions: Vec<Action> = Vec::new();
    actions.push(action);
    assert(actions.deep_view() =~= seq![action.deep_view()]);
    actions
}

fn none() -> (actions: Vec<Action>)
    ensures
        actions.deep_view() == Seq::<ActionModel>::empty(),
{
    let actions: Vec<Action> = Vec::new();
    assert(actions.deep_view() =~= Seq::<ActionModel>::empty());
    actions
}

fn two(first: Action, second: Action) -> (actions: Vec<Action>)
    ensures
        actions.deep_view() == seq![first.deep_view(), second.deep_view()],
{
    let mut actions: Vec<Action> = Vec::new();
    actions.push(first);
    actions.push(second);
    assert(actions.deep_view() =~= seq![first.deep_view(), second.deep_view()]);
    actions
}

/// Lists where the images of the document at `md_path` are looked for.
pub fn image_dir_candidates(md_path: &str) -> (candidates: Vec<String>)
    ensures
        candidates.deep_view() == image_dir_candidates_of(md_path@),
{
    let mut plain: String = String::from_str(directory(md_path));
    plain.append(stem(md_path));
    let mut assets: String = plain.clone();
    assets.append(".assets");
    let mut candidates: Vec<String> = Vec::new();
    candidates.push(plain);
    candidates.push(assets);
    assert(candidates.deep_view() =~= image_dir_candidates_of(md_path@));
    candidates
}

/// Picks the first of `candidates` that is there.
pub fn first_existing(candidates: &Vec<String>, found: &Vec<bool>) -> (first: Option<String>)
    ensures
        first.deep_view() == first_found(candidates.deep_view(), found@),
{
    let ghost all: Seq<Seq<char>> = candidates.deep_view();
    let mut i: usize = 0;
    while i < candidates.len()
        invariant
            i <= candidates.len(),
            all == candidates.deep_view(),
            first_found(all.take(i as int), found@) is None,
        decreases candidates.len() - i,
    {
        assert(all.take(i + 1).drop_last() =~= all.take(i as int));
        assert(all.take(i + 1).last() == candidates@[i as int]@);
        if i < found.len() && found[i] {
            proof {
                lemma_first_found_stays(all, found@, i + 1);
            }
            return Some(candidates[i].clone());
        }
        i += 1;
    }
    assert(all.take(candidates.len() as int) =~= all);
    None
}

proof fn lemma_first_found_stays(candidates: Seq<Seq<char>>, found: Seq<bool>, n: int)
    requires
        0 <= n <= candidates.len(),
        first_found(candidates.take(n), found) is Some,
    ensures
        first_found(candidates, found) == first_found(candidates.take(n), found),
    decreases candidates.len() - n,
{
    if n < candidates.len() {
        assert(candidates.take(n + 1).drop_last() =~= candidates.take(n));
        lemma_first_found_stays(candidates, found, n + 1);
    } else {
        assert(candidates.take(n) =~= candidates);
    }
}

impl App {
    #[verifier::type_invariant]
    spec fn inv(self) -> bool {
        self@.wf()
    }

    /// A session with nothing chosen and an empty catalog.
    pub fn new() -> (app: App)
        ensures
            app@ == (AppModel {
                md_file_path: None,
                image_dir_path: None,
                images: Seq::empty(),
                pending: Pending::Idle,
            }),
    {
        let app: App = App {
            md_file_path: None,
            image_dir_path: None,
            images: Vec::new(),
            pending: Pending::Idle,
        };
        assert(app.images.deep_view() =~= Seq::empty());
        app
    }

    /// The title of the application.
    pub fn title(&self) -> (title: String)
        ensures
            title@ == "Markdown Image Cleaner"@,
    {
        String::from_str("Markdown Image Cleaner")
    }

    /// The document chosen, if any.
    pub fn md_file_path(&self) -> (path: &Option<String>)
        ensures
            path.deep_view() == self@.md_file_path,
    {
        &self.md_file_path
    }

    /// The image directory chosen, if any.
    pub fn image_dir_path(&self) -> (path: &Option<String>)
        ensures
            path.deep_view() == self@.image_dir_path,
    {
        &self.image_dir_path
    }

    /// The catalog.
    pub fn images(&self) -> (images: &Vec<Image>)
        ensures
            images.deep_view() == self@.images,
            self@.wf(),
    {
        proof {
            use_type_invariant(self);
        }
        &self.images
    }

    /// What the session is waiting for.
    pub fn pending(&self) -> (pending: Pending)
        ensures
            pending == self@.pending,
    {
        self.pending
    }

    /// Puts a new catalog in place of the old; whatever the session was
    /// waiting for is off.
    pub(crate) fn set_images(&mut self, images: Vec<Image>)
        requires
            (AppModel { images: images.deep_view(), ..old(self)@.idle() }).wf(),
        ensures
            final(self)@ == (AppModel { images: images.deep_view(), ..old(self)@.idle() }),
    {
        proof {
            use_type_invariant(&*self);
        }
        self.pending = Pending::Idle;
        self.images = images;
    }

    fn discard(&mut self)
        ensures
            final(self)@ == old(self)@.discarded(),
    {
        proof {
            use_type_invariant(&*self);
        }
        self.pending = Pending::Idle;
        self.images = Vec::new();
        assert(self.images.deep_view() =~= Seq::empty());
    }

    fn wait_for(&mut self, pending: Pending)
        requires
            pending.is_renaming() ==> old(self)@.md_file_path is Some,
        ensures
            final(self)@ == old(self)@.waiting(pending),
    {
        proof {
            use_type_invariant(&*self);
        }
        self.pending = pending;
    }

    fn scan(&self) -> (action: Action)
        ensures
            action.deep_view() == self@.scan(),
    {
        Action::Scan {
            image_dir: copy_of(&self.image_dir_path),
            md_file: copy_of(&self.md_file_path),
        }
    }

    fn take_image_dir(&mut self, dir: String) -> (actions: Vec<Action>)
        ensures
            (final(self)@, actions.deep_view()) == with_image_dir(old(self)@, dir@),
    {
        self.discard();
        proof {
            use_type_invariant(&*self);
        }
        self.image_dir_path = Some(dir);
        one(self.scan())
    }

    /// What a list is shown as in a message: all of its lines, or, of more
    /// than ten, the first five and the last five with `...` between them.
    pub fn get_description(content: Vec<String>) -> (description: String)
        ensures
            description@ == description_of(content.deep_view()),
    {
        describe(&content)
    }

    fn pressed(&mut self, message: Message) -> (actions: Vec<Action>)
        ensures
            (final(self)@, actions.deep_view()) == on_pressed(old(self)@, message),
    {
        match message {
            Message::SelectMdFile => {
                self.wait_for(Pending::Idle);
                one(Action::PickMdFile)
            },
            Message::SelectImageDir => {
                self.wait_for(Pending::Idle);
                one(Action::PickImageDir)
            },
            Message::FreshImages => {
                self.wait_for(Pending::Idle);
                one(self.scan())
            },
            Message::RemoveImages => {
                let unused: Vec<String> = self.find_remove_images();
                if unused.len() == 0 {
                    self.wait_for(Pending::Idle);
                    one(
                        Action::Inform {
                            title: String::from_str(REMOVE_TITLE),
                            description: String::from_str(NOTHING_TO_REMOVE),
                        },
                    )
                } else {
                    self.wait_for(Pending::ConfirmingRemove);
                    one(
                        Action::Confirm {
                            title: String::from_str(REMOVE_TITLE),
                            description: remove_question(&unused),
                        },
                    )
                }
            },
            Message::RenameImages => {
                proof {
                    use_type_invariant(&*self);
                    lemma_session_can_rename(self@);
                }
                let used: Vec<&Image> = self.used_images();
                if used.len() == 0 {
                    self.wait_for(Pending::Idle);
                    one(
                        Action::Inform {
                            title: String::from_str(RENAME_TITLE),
                            description: String::from_str(NOTHING_TO_RENAME),
                        },
                    )
                } else {
                    match rename_mapping(&used) {
                        Ok(mapping) => {
                            self.wait_for(Pending::ConfirmingRename);
                            one(
                                Action::Confirm {
                                    title: String::from_str(RENAME_TITLE),
                                    description: rename_question(&mapping),
                                },
                            )
                        },
                        Err(defect) => {
                            self.wait_for(Pending::Idle);
                            one(Action::Fail(Failure::Rename(defect)))
                        },
                    }
                }
            },
        }
    }

    fn answered(&mut self, yes: bool) -> (actions: Vec<Action>)
        ensures
            (final(self)@, actions.deep_view()) == on_answered(old(self)@, yes),
    {
        match self.pending {
            Pending::ConfirmingRemove => {
                let unused: Vec<String> = self.find_remove_images();
                if yes && unused.len() > 0 {
                    self.wait_for(Pending::Removing);
                    one(Action::Remove(unused))
                } else {
                    self.wait_for(Pending::Idle);
                    none()
                }
            },
            Pending::ConfirmingRename => {
                self.wait_for(Pending::Idle);
                if yes {
                    match copy_of(&self.md_file_path) {
                        Some(path) => {
                            self.wait_for(Pending::ReadingDocument);
                            one(Action::ReadDocument(path))
                        },
                        None => one(Action::Fail(Failure::Rename(RenameError::NoDocument))),
                    }
                } else {
                    none()
                }
            },
            _ => {
                self.wait_for(Pending::Idle);
                none()
            },
        }
    }

    fn removed(&mut self, removed: Vec<bool>) -> (actions: Vec<Action>)
        ensures
            (final(self)@, actions.deep_view()) == on_removed(old(self)@, removed@),
    {
        match self.pending {
            Pending::Removing => {
                let unused: Vec<String> = self.find_remove_images();
                let report: DeleteReport = delete_report(&unused, &removed);
                self.wait_for(Pending::Idle);
                two(
                    Action::Inform {
                        title: String::from_str(REMOVE_TITLE),
                        description: removed_text(&report),
                    },
                    self.scan(),
                )
            },
            _ => {
                self.wait_for(Pending::Idle);
                none()
            },
        }
    }

    fn document_read(&mut self, text: String) -> (actions: Vec<Action>)
        ensures
            (final(self)@, actions.deep_view()) == on_document_read(old(self)@, text@),
    {
        match self.pending {
            Pending::ReadingDocument => match self.rename_images(text.as_str()) {
                Ok(plan) => {
                    self.wait_for(Pending::Renaming);
                    one(Action::Rename(plan))
                },
                Err(defect) => {
                    self.wait_for(Pending::Idle);
                    one(Action::Fail(Failure::Rename(defect)))
                },
            },
            _ => {
                self.wait_for(Pending::Idle);
                none()
            },
        }
    }

    fn renamed(&mut self) -> (actions: Vec<Action>)
        ensures
            (final(self)@, actions.deep_view()) == on_renamed(old(self)@),
    {
        match self.pending {
            Pending::Renaming => {
                self.wait_for(Pending::Idle);
                let md_path: String = match copy_of(&self.md_file_path) {
                    Some(path) => path,
                    None => {
                        return one(Action::Fail(Failure::Rename(RenameError::NoDocument)));
                    },
                };
                let used: Vec<&Image> = self.used_images();
                match rename_mapping(&used) {
                    Ok(mapping) => {
                        let mut new_path: String = String::from_str(directory(md_path.as_str()));
                        new_path.append(stem(md_path.as_str()));
                        new_path.append("_new.md");
                        proof {
                            reveal_strlit("_new.md");
                            assert(new_path@ =~= new_document_path(md_path@));
                        }
                        two(
                            Action::Inform {
                                title: String::from_str(RENAME_TITLE),
                                description: renamed_text(&mapping, new_path.as_str()),
                            },
                            self.scan(),
                        )
                    },
                    Err(defect) => one(Action::Fail(Failure::Rename(defect))),
                }
            },
            _ => {
                self.wait_for(Pending::Idle);
                none()
            },
        }
    }

    /// Takes in what happened and says what is to be done about it, in
    /// order. Whatever is done is reported back by another call.
    pub fn update(&mut self, event: Event) -> (actions: Vec<Action>)
        ensures
            (final(self)@, actions.deep_view()) == step(old(self)@, event.deep_view()),
    {
        match event {
            Event::Pressed(message) => self.pressed(message),
            Event::MdFilePicked(picked) => match picked {
                Some(path) => {
                    let candidates: Vec<String> = image_dir_candidates(path.as_str());
                    self.discard();
                    proof {
                        use_type_invariant(&*self);
                    }
                    self.md_file_path = Some(path);
                    one(Action::ProbeImageDirs(candidates))
                },
                None => {
                    self.wait_for(Pending::Idle);
                    none()
                },
            },
            Event::ImageDirPicked(picked) => match picked {
                Some(dir) => self.take_image_dir(dir),
                None => {
                    self.wait_for(Pending::Idle);
                    none()
                },
            },
            Event::ImageDirsProbed(found) => {
                let first: Option<String> = match &self.md_file_path {
                    Some(path) => first_existing(&image_dir_candidates(path.as_str()), &found),
                    None => None,
                };
                let chosen: bool = self.md_file_path.is_some();
                match first {
                    Some(dir) => self.take_image_dir(dir),
                    None => {
                        self.wait_for(Pending::Idle);
                        if chosen {
                            one(self.scan())
                        } else {
                            none()
                        }
                    },
                }
            },
            Event::Scanned { entries, document } => {
                let text: Option<&str> = match &document {
                    Some(text) => Some(text.as_str()),
                    None => None,
                };
                match self.fresh_images(&entries, text) {
                    Ok(()) => none(),
                    Err(refused) => {
                        self.wait_for(Pending::Idle);
                        one(Action::Fail(Failure::Pattern(refused)))
                    },
                }
            },
            Event::Answered(yes) => self.answered(yes),
            Event::Removed(removed) => self.removed(removed),
            Event::DocumentRead(text) => self.document_read(text),
            Event::Renamed => self.renamed(),
        }
    }
}

} // verus!
