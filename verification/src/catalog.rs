//! The catalog: every image file on disk, marked used or unused by the
//! references of the document.

use crate::app::{App, AppModel};
use crate::extract::{
    are_resolved, lemma_references_in_are_resolved, references_in, refused_pattern,
    ImageReference, PatternError, ReferenceModel,
};
use crate::path::{canonical, canonicalize, joined, lemma_canonical_is_canonical, same_file};
use crate::scan::{images_in_all, is_image_path, lemma_found_are_images, DirEntry};
use vstd::prelude::*;

verus! {

/// An image file on disk, and how the document refers to it.
#[derive(Debug, PartialEq, Eq)]
pub struct Image {
    /// The path of the file, as the directory listing gave it.
    pub abs_path: String,
    /// The reference in the document that names this file, as written
    /// there; `None` if no reference names it.
    pub raw_path: Option<String>,
    /// Whether the document refers to the file.
    pub used: bool,
}

/// An `Image` as plain text.
pub ghost struct ImageModel {
    pub abs_path: Seq<char>,
    pub raw_path: Option<Seq<char>>,
    pub used: bool,
}

impl ImageModel {
    /// An image is used exactly when a reference to it is known.
    pub open spec fn wf(self) -> bool {
        self.used == self.raw_path.is_some()
    }

    /// Whether the image's reference, written in the document at `md_path`,
    /// names the image's file. An image without reference has none that
    /// could fail to; one with a reference needs a document.
    pub open spec fn is_named_from(self, md_path: Option<Seq<char>>) -> bool {
        match (self.raw_path, md_path) {
            (Some(raw), Some(md_path)) => same_file(joined(md_path, raw), self.abs_path),
            (Some(_), None) => false,
            (None, _) => true,
        }
    }
}

/// Every image of `images` is used exactly when a reference to it is known.
pub open spec fn all_wf(images: Seq<ImageModel>) -> bool {
    forall|i: int| 0 <= i < images.len() ==> (#[trigger] images[i]).wf()
}

impl DeepView for Image {
    type V = ImageModel;

    open spec fn deep_view(&self) -> ImageModel {
        ImageModel {
            abs_path: self.abs_path@,
            raw_path: self.raw_path.deep_view(),
            used: self.used,
        }
    }
}

impl View for Image {
    type V = ImageModel;

    open spec fn view(&self) -> ImageModel {
        self.deep_view()
    }
}

/// The text of the last reference in `references` that names the file at
/// `path`, if any does.
pub open spec fn last_reference_to(references: Seq<ReferenceModel>, path: Seq<char>) -> Option<
    Seq<char>,
>
    decreases references.len(),
{
    if references.len() == 0 {
        None
    } else if same_file(references.last().abs_path, path) {
        Some(references.last().raw_path)
    } else {
        last_reference_to(references.drop_last(), path)
    }
}

/// The catalog entry of the file at `path`: used if a reference names it,
/// with the text of the last such reference.
pub open spec fn cataloged(path: Seq<char>, references: Seq<ReferenceModel>) -> ImageModel {
    let raw = last_reference_to(references, path);
    ImageModel { abs_path: path, raw_path: raw, used: raw.is_some() }
}

/// The catalog of the files `discovered`, in their order.
pub open spec fn catalog_of(discovered: Seq<Seq<char>>, references: Seq<ReferenceModel>) -> Seq<
    ImageModel,
> {
    Seq::new(discovered.len(), |i: int| cataloged(discovered[i], references))
}

/// A reference names the file at `path`, or none does, as the lookup
/// says: where it finds a text, that is the text of a reference that names
/// the file, and no later reference names it.
pub proof fn lemma_last_reference_to(references: Seq<ReferenceModel>, path: Seq<char>)
    ensures
        last_reference_to(references, path) is Some <==> exists|j: int|
            0 <= j < references.len() && same_file(#[trigger] references[j].abs_path, path),
        last_reference_to(references, path) is Some ==> exists|j: int|
            0 <= j < references.len() && same_file(#[trigger] references[j].abs_path, path)
                && last_reference_to(references, path) == Some(references[j].raw_path) && forall|
                k: int,
            |
                j < k < references.len() ==> !same_file(#[trigger] references[k].abs_path, path),
    decreases references.len(),
{
    if references.len() > 0 {
        let front = references.drop_last();
        let last = references.len() - 1;
        lemma_last_reference_to(front, path);
        if same_file(references.last().abs_path, path) {
            assert(same_file(references[last].abs_path, path));
        } else {
            if last_reference_to(front, path) is Some {
                let j = choose|j: int|
                    0 <= j < front.len() && same_file(#[trigger] front[j].abs_path, path)
                        && last_reference_to(front, path) == Some(front[j].raw_path) && forall|
                        k: int,
                    |
                        j < k < front.len() ==> !same_file(#[trigger] front[k].abs_path, path);
                assert(references[j] == front[j]);
                assert forall|k: int| j < k < references.len() implies !same_file(
                    #[trigger] references[k].abs_path,
                    path,
                ) by {
                    if k < front.len() {
                        assert(references[k] == front[k]);
                    }
                }
                assert(same_file(references[j].abs_path, path));
            }
            if exists|j: int|
                0 <= j < references.len() && same_file(#[trigger] references[j].abs_path, path) {
                let j = choose|j: int|
                    0 <= j < references.len() && same_file(
                        #[trigger] references[j].abs_path,
                        path,
                    );
                assert(j < front.len());
                assert(front[j] == references[j]);
                assert(same_file(front[j].abs_path, path));
            }
        }
    }
}

/// The catalog holds one entry for each file, in order, and a file is
/// used exactly when a reference names it.
pub proof fn lemma_used_iff_referenced(
    discovered: Seq<Seq<char>>,
    references: Seq<ReferenceModel>,
    i: int,
)
    requires
        0 <= i < discovered.len(),
    ensures
        catalog_of(discovered, references).len() == discovered.len(),
        catalog_of(discovered, references)[i].abs_path == discovered[i],
        catalog_of(discovered, references)[i].wf(),
        catalog_of(discovered, references)[i].used <==> exists|j: int|
            0 <= j < references.len() && same_file(
                #[trigger] references[j].abs_path,
                discovered[i],
            ),
{
    lemma_last_reference_to(references, discovered[i]);
}

/// In the catalog of a document's references, the reference of a used
/// image, written in the document, names the image's file.
pub proof fn lemma_reference_names_the_file(
    document: Seq<char>,
    discovered: Seq<Seq<char>>,
    references: Seq<ReferenceModel>,
    i: int,
)
    requires
        are_resolved(document, references),
        0 <= i < discovered.len(),
    ensures
        catalog_of(discovered, references)[i].raw_path matches Some(raw) ==> same_file(
            joined(document, raw),
            discovered[i],
        ),
{
    lemma_last_reference_to(references, discovered[i]);
    if last_reference_to(references, discovered[i]) is Some {
        let j = choose|j: int|
            0 <= j < references.len() && same_file(#[trigger] references[j].abs_path, discovered[i])
                && last_reference_to(references, discovered[i]) == Some(references[j].raw_path);
        lemma_canonical_is_canonical(joined(document, references[j].raw_path));
    }
}

/// Catalogs the files `discovered` against the references of the document:
/// one entry for each file, in the order given.
pub fn reconcile(discovered: &Vec<String>, references: &Vec<ImageReference>) -> (catalog: Vec<
    Image,
>)
    ensures
        catalog.deep_view() == catalog_of(discovered.deep_view(), references.deep_view()),
        all_wf(catalog.deep_view()),
{
    let ghost refs: Seq<ReferenceModel> = references.deep_view();
    let ghost files: Seq<Seq<char>> = discovered.deep_view();
    let mut keys: Vec<String> = Vec::new();
    let mut k: usize = 0;
    while k < references.len()
        invariant
            k <= references.len(),
            keys.len() == k,
            refs == references.deep_view(),
            forall|j: int| 0 <= j < k ==> keys@[j]@ == canonical(#[trigger] refs[j].abs_path),
        decreases references.len() - k,
    {
        keys.push(canonicalize(references[k].abs_path.as_str()));
        k += 1;
    }
    let mut catalog: Vec<Image> = Vec::new();
    let mut i: usize = 0;
    while i < discovered.len()
        invariant
            i <= discovered.len(),
            catalog.len() == i,
            keys.len() == references.len(),
            refs == references.deep_view(),
            files == discovered.deep_view(),
            forall|j: int|
                0 <= j < keys.len() ==> keys@[j]@ == canonical(#[trigger] refs[j].abs_path),
            forall|j: int| 0 <= j < i ==> catalog@[j].deep_view() == cataloged(files[j], refs),
        decreases discovered.len() - i,
    {
        let key: String = canonicalize(discovered[i].as_str());
        let mut j: usize = references.len();
        let mut raw_path: Option<String> = None;
        assert(refs.take(j as int) =~= refs);
        while j > 0 && raw_path.is_none()
            invariant
                j <= references.len(),
                keys.len() == references.len(),
                refs == references.deep_view(),
                key@ == canonical(files[i as int]),
                i < discovered.len(),
                files == discovered.deep_view(),
                forall|m: int|
                    0 <= m < keys.len() ==> keys@[m]@ == canonical(#[trigger] refs[m].abs_path),
                raw_path.is_none() ==> last_reference_to(refs, files[i as int])
                    == last_reference_to(refs.take(j as int), files[i as int]),
                raw_path.is_some() ==> last_reference_to(refs, files[i as int])
                    == raw_path.deep_view(),
            decreases j,
        {
            j -= 1;
            assert(refs.take(j + 1).drop_last() =~= refs.take(j as int));
            assert(refs.take(j + 1).last() == refs[j as int]);
            if keys[j] == key {
                raw_path = Some(references[j].raw_path.clone());
            }
        }
        let used: bool = raw_path.is_some();
        catalog.push(Image { abs_path: discovered[i].clone(), raw_path, used });
        i += 1;
    }
    assert(catalog.deep_view() =~= catalog_of(files, refs));
    catalog
}

/// The image files that a session finds in a listing of its image
/// directory: none while no directory is chosen.
pub open spec fn discovered_by(app: AppModel, entries: Seq<DirEntry>) -> Seq<Seq<char>> {
    if app.image_dir_path.is_some() {
        images_in_all(entries)
    } else {
        Seq::empty()
    }
}

/// Whether a session reads references out of `document`: it does where a
/// document is chosen and its text could be had.
pub open spec fn reads_document(app: AppModel, document: Option<Seq<char>>) -> bool {
    app.md_file_path.is_some() && document.is_some()
}

/// The references that a session finds in the text of its document: none
/// while no document is chosen, or where its text could not be had.
pub open spec fn referenced_by(app: AppModel, document: Option<Seq<char>>) -> Seq<ReferenceModel> {
    match (app.md_file_path, document) {
        (Some(path), Some(text)) => references_in(path, text),
        _ => Seq::empty(),
    }
}

/// A session after its catalog is built anew from `entries` and `document`:
/// the same document and directory, with every image file that the
/// listing holds cataloged against the references of the document, and
/// waiting for nothing.
pub open spec fn refreshed(
    app: AppModel,
    entries: Seq<DirEntry>,
    document: Option<Seq<char>>,
) -> AppModel {
    AppModel {
        images: catalog_of(discovered_by(app, entries), referenced_by(app, document)),
        ..app.idle()
    }
}

/// In a catalog just built, the reference of every used image, written in
/// the document chosen, names the image's file.
pub proof fn lemma_refreshed_references_name_files(
    app: AppModel,
    entries: Seq<DirEntry>,
    document: Option<Seq<char>>,
    i: int,
)
    requires
        0 <= i < refreshed(app, entries, document).images.len(),
    ensures
        refreshed(app, entries, document).images[i].is_named_from(app.md_file_path),
{
    let references = referenced_by(app, document);
    let discovered = discovered_by(app, entries);
    match (app.md_file_path, document) {
        (Some(md_path), Some(text)) => {
            lemma_references_in_are_resolved(md_path, text);
            lemma_reference_names_the_file(md_path, discovered, references, i);
        },
        _ => {
            assert(last_reference_to(references, discovered[i]) is None);
        },
    }
}

/// A session whose catalog was just built is as every session is.
pub proof fn lemma_refreshed_is_wf(
    app: AppModel,
    entries: Seq<DirEntry>,
    document: Option<Seq<char>>,
)
    ensures
        refreshed(app, entries, document).wf(),
{
    let next = refreshed(app, entries, document);
    let references = referenced_by(app, document);
    let discovered = discovered_by(app, entries);
    lemma_found_are_images(entries);
    assert forall|i: int| 0 <= i < next.images.len() implies (#[trigger] next.images[i]).wf()
        && is_image_path(next.images[i].abs_path) && next.images[i].is_named_from(
        next.md_file_path,
    ) by {
        assert(next.images[i] == cataloged(discovered[i], references));
        lemma_refreshed_references_name_files(app, entries, document, i);
    }
}

/// The catalog is made of the listing and the text alone, for the
/// document and directory chosen: what was cataloged before, and what the
/// session was waiting for, leave no trace.
pub proof fn lemma_refresh_forgets(
    one: AppModel,
    other: AppModel,
    entries: Seq<DirEntry>,
    document: Option<Seq<char>>,
)
    requires
        one.md_file_path == other.md_file_path,
        one.image_dir_path == other.image_dir_path,
    ensures
        refreshed(one, entries, document) == refreshed(other, entries, document),
{
}

/// Building the catalog a second time from the same listing and text
/// gives the session that the first time gave.
pub proof fn lemma_refresh_repeats(
    app: AppModel,
    entries: Seq<DirEntry>,
    document: Option<Seq<char>>,
)
    ensures
        refreshed(refreshed(app, entries, document), entries, document) == refreshed(
            app,
            entries,
            document,
        ),
{
}

/// The paths of the unused images of `images`, in order.
pub open spec fn unused_paths(images: Seq<ImageModel>) -> Seq<Seq<char>>
    decreases images.len(),
{
    if images.len() == 0 {
        Seq::empty()
    } else if images.last().used {
        unused_paths(images.drop_last())
    } else {
        unused_paths(images.drop_last()).push(images.last().abs_path)
    }
}

impl App {
    /// Builds the catalog anew: from `entries`, the listing of the image
    /// directory, and `document`, the text of the document, where it could
    /// be read. What was cataloged before is dropped. Fails, and changes
    /// nothing, only where a document is read and the `regex` crate
    /// refuses a pattern.
    pub fn fresh_images(&mut self, entries: &Vec<DirEntry>, document: Option<&str>) -> (done:
        Result<(), PatternError>)
        ensures
            match done {
                Ok(()) => final(self)@ == refreshed(old(self)@, entries@, document.deep_view())
                    && !(reads_document(old(self)@, document.deep_view()) && refused_pattern()
                    is Some),
                Err(refused) => final(self)@ == old(self)@ && reads_document(
                    old(self)@,
                    document.deep_view(),
                ) && refused_pattern() == Some(refused),
            },
    {
        let has_dir: bool = self.image_dir_path().is_some();
        let dir_images: Vec<String> = if has_dir {
            Self::find_dir_images(entries)
        } else {
            Vec::new()
        };
        let found: Result<Vec<ImageReference>, PatternError> = match (
            self.md_file_path(),
            document,
        ) {
            (Some(path), Some(text)) => Self::find_md_images(path.as_str(), text),
            _ => Ok(Vec::new()),
        };
        match found {
            Ok(md_images) => {
                proof {
                    if !has_dir {
                        assert(dir_images.deep_view() =~= Seq::empty());
                    }
                    if !reads_document(old(self)@, document.deep_view()) {
                        assert(md_images.deep_view() =~= Seq::empty());
                    }
                }
                let catalog: Vec<Image> = reconcile(&dir_images, &md_images);
                proof {
                    lemma_refreshed_is_wf(old(self)@, entries@, document.deep_view());
                }
                self.set_images(catalog);
                Ok(())
            },
            Err(refused) => Err(refused),
        }
    }

    /// Lists the paths of the unused images, in catalog order.
    pub fn find_remove_images(&mut self) -> (paths: Vec<String>)
        ensures
            paths.deep_view() == unused_paths(old(self)@.images),
            final(self)@ == old(self)@,
    {
        let images: &Vec<Image> = self.images();
        let mut paths: Vec<String> = Vec::new();
        let mut i: usize = 0;
        let ghost all: Seq<ImageModel> = images.deep_view();
        assert(paths.deep_view() =~= unused_paths(all.take(0)));
        while i < images.len()
            invariant
                i <= images.len(),
                all == images.deep_view(),
                paths.deep_view() == unused_paths(all.take(i as int)),
            decreases images.len() - i,
        {
            let ghost before: Seq<Seq<char>> = paths.deep_view();
            assert(all.take(i + 1).drop_last() =~= all.take(i as int));
            assert(all.take(i + 1).last() == images@[i as int].deep_view());
            if !images[i].used {
                paths.push(images[i].abs_path.clone());
                assert(paths.deep_view() =~= before.push(images@[i as int].abs_path@));
            }
            i += 1;
        }
        assert(all.take(images.len() as int) =~= all);
        paths
    }
}

} // verus!
