//! Plans the renumbering of the used images: which files to copy to which
//! names, and how the document reads afterwards.

use crate::app::{App, AppModel};
use crate::catalog::{Image, ImageModel};
use crate::path::{
    components, directory, directory_of, extension, extension_of, file_name, file_name_of,
    is_directory, is_name, is_normal, is_rooted, is_separator, joined, last_dot,
    lemma_components_of_join, lemma_components_of_name, lemma_last_dot, lemma_parts,
    lemma_parts_of_join, lemma_same_file_same_components, same_file, stem, stem_of,
};
use crate::scan::is_image_path;
use crate::text::{
    append_decimal, decimal, is_digit, lemma_decimal_is_digits, replace, replace_all,
};
use vstd::prelude::*;

verus! {

/// Why a renumbering cannot be planned.
#[derive(Debug, Clone, Copy, PartialEq, Eq)]
pub enum RenameError {
    /// No document is chosen.
    NoDocument,
    /// An image file has no extension.
    MissingExtension,
    /// No reference is known for an image.
    MissingReference,
}

/// A planned renumbering. Nothing is changed on disk by planning.
///
/// The plan copies and never moves or removes: the document and the images
/// stay, unless a copy is written over one of them. That happens where an
/// image already bears a number as its name: the plan does not look at
/// what its copies overwrite.
#[derive(Debug, PartialEq, Eq)]
pub struct RenamePlan {
    /// For each image, in the order given: its file name and its new one.
    pub mapping: Vec<(String, String)>,
    /// The files to copy, source and target, in the order to copy them:
    /// the last image first.
    pub copies: Vec<(String, String)>,
    /// Where to write the new document.
    pub new_md_file_path: String,
    /// The text of the new document.
    pub new_md_content: String,
}

/// A `RenamePlan` as plain text.
pub ghost struct RenamePlanModel {
    pub mapping: Seq<(Seq<char>, Seq<char>)>,
    pub copies: Seq<(Seq<char>, Seq<char>)>,
    pub new_md_file_path: Seq<char>,
    pub new_md_content: Seq<char>,
}

impl DeepView for RenamePlan {
    type V = RenamePlanModel;

    open spec fn deep_view(&self) -> RenamePlanModel {
        RenamePlanModel {
            mapping: self.mapping.deep_view(),
            copies: self.copies.deep_view(),
            new_md_file_path: self.new_md_file_path@,
            new_md_content: self.new_md_content@,
        }
    }
}

impl View for RenamePlan {
    type V = RenamePlanModel;

    open spec fn view(&self) -> RenamePlanModel {
        self.deep_view()
    }
}

/// What keeps an image from being renamed, if anything does.
pub open spec fn defect_of(image: ImageModel) -> Option<RenameError> {
    if extension_of(image.abs_path) is None {
        Some(RenameError::MissingExtension)
    } else if image.raw_path is None {
        Some(RenameError::MissingReference)
    } else {
        None
    }
}

/// The defect of the last image that has one, if any has.
pub open spec fn first_defect(images: Seq<ImageModel>) -> Option<RenameError>
    decreases images.len(),
{
    if images.len() == 0 {
        None
    } else if defect_of(images.last()) is Some {
        defect_of(images.last())
    } else {
        first_defect(images.drop_last())
    }
}

/// The new name of the file at `path` as number `index`: the number in
/// decimal, a `.`, and the file's extension.
pub open spec fn new_name_of(index: nat, path: Seq<char>) -> Seq<char> {
    decimal(index) + seq!['.'] + extension_of(path).unwrap()
}

/// The path of the copy of the file at `path` as number `index`: the new
/// name in the file's own directory.
pub open spec fn new_path_of(index: nat, path: Seq<char>) -> Seq<char> {
    directory_of(path) + new_name_of(index, path)
}

/// The reference to an image once it is number `index`: the reference as
/// it was written, with the new name in place of its file name.
pub open spec fn new_reference_of(index: nat, image: ImageModel) -> Seq<char> {
    directory_of(image.raw_path.unwrap()) + new_name_of(index, image.abs_path)
}

/// For each image its file name and its new name, the images numbered
/// from 1 in their order.
pub open spec fn mapping_of(images: Seq<ImageModel>) -> Seq<(Seq<char>, Seq<char>)> {
    Seq::new(
        images.len(),
        |i: int|
            (file_name_of(images[i].abs_path), new_name_of((i + 1) as nat, images[i].abs_path)),
    )
}

/// For each image its path and the path of its copy, the last image first.
pub open spec fn copies_of(images: Seq<ImageModel>) -> Seq<(Seq<char>, Seq<char>)> {
    Seq::new(
        images.len(),
        |k: int|
            {
                let i = images.len() - 1 - k;
                (images[i].abs_path, new_path_of((i + 1) as nat, images[i].abs_path))
            },
    )
}

/// `text` after the references to the images are rewritten one image after
/// the other, the last image first: every occurrence of the image's
/// reference is replaced by its new reference.
pub open spec fn rewritten(text: Seq<char>, images: Seq<ImageModel>) -> Seq<char>
    decreases images.len(),
{
    if images.len() == 0 {
        text
    } else {
        rewritten(
            replace_all(
                text,
                images.last().raw_path.unwrap(),
                new_reference_of(images.len(), images.last()),
            ),
            images.drop_last(),
        )
    }
}

/// Where the new document goes: beside the document at `md_path`, under
/// its name without extension followed by `_new.md`.
pub open spec fn new_document_path(md_path: Seq<char>) -> Seq<char> {
    directory_of(md_path) + stem_of(md_path) + seq!['_', 'n', 'e', 'w', '.', 'm', 'd']
}

/// The new document never takes the place of the old.
pub proof fn lemma_new_document_is_another(md_path: Seq<char>)
    ensures
        new_document_path(md_path) != md_path,
{
    let dir = directory_of(md_path);
    let name = file_name_of(md_path);
    let suffix = seq!['_', 'n', 'e', 'w', '.', 'm', 'd'];
    let new_path = new_document_path(md_path);
    lemma_parts(md_path);
    lemma_last_dot(name);
    if last_dot(name) > 0 {
        let at = dir.len() + last_dot(name);
        assert(md_path[at] == name[last_dot(name)]);
        assert(new_path[at] == suffix[0]);
    } else {
        assert(new_path.len() == md_path.len() + 7);
    }
}

/// The plan that renumbers `images` in the document at `md_path` whose
/// text is `md_text`.
pub open spec fn plan_of(images: Seq<ImageModel>, md_path: Seq<char>, md_text: Seq<char>)
    -> RenamePlanModel {
    RenamePlanModel {
        mapping: mapping_of(images),
        copies: copies_of(images),
        new_md_file_path: new_document_path(md_path),
        new_md_content: rewritten(md_text, images),
    }
}

proof fn lemma_last_dot_before(front: Seq<char>, back: Seq<char>)
    requires
        forall|i: int| 0 <= i < back.len() ==> #[trigger] back[i] != '.',
    ensures
        last_dot(front + seq!['.'] + back) == front.len(),
    decreases back.len(),
{
    let whole = front + seq!['.'] + back;
    if back.len() > 0 {
        assert(whole.last() == back.last());
        assert(whole.drop_last() =~= front + seq!['.'] + back.drop_last());
        assert forall|i: int| 0 <= i < back.drop_last().len() implies #[trigger] back.drop_last()[i]
            != '.' by {
            assert(back.drop_last()[i] == back[i]);
        }
        lemma_last_dot_before(front, back.drop_last());
    } else {
        assert(whole.last() == '.');
    }
}

/// The copy of a file lies in the file's directory, under its number and
/// the file's extension.
pub proof fn lemma_copy_is_numbered(index: nat, path: Seq<char>)
    requires
        extension_of(path) is Some,
    ensures
        is_name(new_name_of(index, path)),
        is_normal(new_name_of(index, path)),
        !is_separator(new_name_of(index, path)[0]),
        directory_of(new_path_of(index, path)) == directory_of(path),
        file_name_of(new_path_of(index, path)) == new_name_of(index, path),
        stem_of(new_path_of(index, path)) == decimal(index),
        extension_of(new_path_of(index, path)) == extension_of(path),
{
    let name = file_name_of(path);
    let ext = extension_of(path).unwrap();
    let number = decimal(index);
    let new_name = new_name_of(index, path);
    lemma_parts(path);
    lemma_last_dot(name);
    lemma_decimal_is_digits(index);
    assert forall|i: int| 0 <= i < ext.len() implies #[trigger] ext[i] != '.' && !is_separator(
        ext[i],
    ) by {
        assert(ext[i] == name[last_dot(name) + 1 + i]);
    }
    assert forall|i: int| 0 <= i < new_name.len() implies !is_separator(#[trigger] new_name[i]) by {
        if i < number.len() {
            assert(new_name[i] == number[i]);
            assert(is_digit(number[i]));
        } else if i > number.len() {
            assert(new_name[i] == ext[i - number.len() - 1]);
        }
    }
    assert(new_name[0] == number[0]);
    assert(is_digit(number[0]));
    assert(new_name != seq!['.']);
    lemma_parts_of_join(directory_of(path), new_name);
    lemma_last_dot_before(number, ext);
    assert(new_name.skip(number.len() as int + 1) =~= ext);
    assert(new_name.take(number.len() as int) =~= number);
}

/// Where a reference names an image by the image's file name, the new
/// reference names the image's copy.
pub proof fn lemma_new_reference_names_the_copy(
    document: Seq<char>,
    image: ImageModel,
    index: nat,
)
    requires
        image.raw_path is Some,
        extension_of(image.abs_path) is Some,
        is_normal(file_name_of(image.raw_path.unwrap())),
        same_file(joined(document, image.raw_path.unwrap()), image.abs_path),
    ensures
        same_file(
            joined(document, new_reference_of(index, image)),
            new_path_of(index, image.abs_path),
        ),
{
    let raw = image.raw_path.unwrap();
    let path = image.abs_path;
    let new_name = new_name_of(index, path);
    let raw_dir = directory_of(raw);
    let raw_name = file_name_of(raw);
    let dir = directory_of(path);
    let name = file_name_of(path);
    let base = if is_rooted(raw) {
        raw_dir
    } else {
        directory_of(document) + raw_dir
    };
    lemma_parts(raw);
    lemma_parts(path);
    lemma_parts(document);
    lemma_copy_is_numbered(index, path);
    lemma_last_dot(name);
    assert(is_normal(name)) by {
        if name == seq!['.'] {
            assert(name.len() == 1);
        }
    }
    assert(is_directory(base)) by {
        if raw_dir.len() > 0 {
            assert(base.last() == raw_dir.last());
        } else {
            assert(directory_of(document) + raw_dir =~= directory_of(document));
        }
    }
    // the old reference, the old path
    let old_joined = joined(document, raw);
    assert(old_joined =~= base + raw_name);
    lemma_same_file_same_components(old_joined, path);
    lemma_components_of_join(base, raw_name);
    lemma_components_of_name(raw_name);
    lemma_components_of_join(dir, name);
    lemma_components_of_name(name);
    assert(components(base) =~= (components(base) + seq![raw_name]).drop_last());
    assert(components(dir) =~= (components(dir) + seq![name]).drop_last());
    // the new reference, the new path
    let new_raw = new_reference_of(index, image);
    assert(is_rooted(new_raw) == is_rooted(raw)) by {
        if raw_dir.len() > 0 {
            assert(new_raw[0] == raw_dir[0]);
            assert(raw[0] == raw_dir[0]);
        } else {
            assert(new_raw =~= new_name);
            assert(raw =~= raw_name);
        }
    }
    let new_joined = joined(document, new_raw);
    assert(new_joined =~= base + new_name);
    lemma_components_of_join(base, new_name);
    lemma_components_of_name(new_name);
    lemma_components_of_join(dir, new_name);
    assert(is_rooted(new_joined) == is_rooted(old_joined)) by {
        if base.len() > 0 {
            assert(new_joined[0] == base[0]);
            assert(old_joined[0] == base[0]);
        } else {
            assert(new_joined =~= new_name);
            assert(old_joined =~= raw_name);
        }
    }
    assert(is_rooted(new_path_of(index, path)) == is_rooted(path)) by {
        if dir.len() > 0 {
            assert(new_path_of(index, path)[0] == dir[0]);
            assert(path[0] == dir[0]);
        } else {
            assert(new_path_of(index, path) =~= new_name);
            assert(path =~= name);
        }
    }
}

fn new_name(index: usize, ext: &str) -> (name: String)
    ensures
        name@ == decimal(index as nat) + seq!['.'] + ext@,
{
    let mut name: String = String::new();
    append_decimal(&mut name, index);
    proof {
        reveal_strlit(".");
    }
    name.append(".");
    name.append(ext);
    assert(name@ =~= decimal(index as nat) + seq!['.'] + ext@);
    name
}

/// Names the images anew, numbered from 1 in the order given: for each
/// its file name and its new name. The images are taken last to first;
/// the first one found without an extension or without a reference fails
/// the whole.
pub fn rename_mapping(images: &Vec<&Image>) -> (mapped: Result<
    Vec<(String, String)>,
    RenameError,
>)
    ensures
        match mapped {
            Ok(mapping) => first_defect(images.deep_view()) is None && mapping.deep_view()
                == mapping_of(images.deep_view()),
            Err(defect) => first_defect(images.deep_view()) == Some(defect),
        },
{
    let ghost all: Seq<ImageModel> = images.deep_view();
    let n: usize = images.len();
    let mut mapping: Vec<(String, String)> = Vec::new();
    let mut i: usize = n;
    proof {
        assert(all.take(n as int) =~= all);
        assert(mapping.deep_view() =~= mapping_of(all).skip(n as int));
    }
    while i > 0
        invariant
            i <= n,
            n == images.len(),
            all == images.deep_view(),
            first_defect(all) == first_defect(all.take(i as int)),
            mapping.deep_view() == mapping_of(all).skip(i as int),
        decreases i,
    {
        let image: &Image = images[i - 1];
        let ghost model: ImageModel = all[i - 1];
        proof {
            assert(all.take(i as int).drop_last() =~= all.take(i - 1));
            assert(all.take(i as int).last() == model);
            assert(model == image.deep_view());
        }
        let ext: &str = match extension(image.abs_path.as_str()) {
            Some(ext) => ext,
            None => {
                return Err(RenameError::MissingExtension);
            },
        };
        if image.raw_path.is_none() {
            return Err(RenameError::MissingReference);
        }
        let ghost old_mapping: Seq<(Seq<char>, Seq<char>)> = mapping.deep_view();
        let old_name: String = String::from_str(file_name(image.abs_path.as_str()));
        mapping.insert(0, (old_name, new_name(i, ext)));
        proof {
            assert(mapping.deep_view() =~= seq![
                (file_name_of(model.abs_path), new_name_of(i as nat, model.abs_path)),
            ] + old_mapping);
            assert(mapping.deep_view() =~= mapping_of(all).skip(i - 1));
        }
        i -= 1;
    }
    assert(mapping_of(all).skip(0) =~= mapping_of(all));
    Ok(mapping)
}

/// Plans the renumbering of `images`, numbered from 1 in the order given,
/// in the document at `md_path` whose text is `md_text`. The images are
/// taken last to first; the first one found without an extension or
/// without a reference fails the whole plan.
pub fn rename_plan(images: &Vec<&Image>, md_path: &str, md_text: &str) -> (planned: Result<
    RenamePlan,
    RenameError,
>)
    ensures
        match planned {
            Ok(plan) => first_defect(images.deep_view()) is None && plan.deep_view() == plan_of(
                images.deep_view(),
                md_path@,
                md_text@,
            ),
            Err(defect) => first_defect(images.deep_view()) == Some(defect),
        },
{
    let mapping: Vec<(String, String)> = match rename_mapping(images) {
        Ok(mapping) => mapping,
        Err(defect) => {
            return Err(defect);
        },
    };
    let ghost all: Seq<ImageModel> = images.deep_view();
    let n: usize = images.len();
    let mut copies: Vec<(String, String)> = Vec::new();
    let mut content: String = String::from_str(md_text);
    let mut i: usize = n;
    proof {
        assert(all.take(n as int) =~= all);
        assert(copies.deep_view() =~= copies_of(all).take(0));
    }
    while i > 0
        invariant
            i <= n,
            n == images.len(),
            all == images.deep_view(),
            first_defect(all) == first_defect(all.take(i as int)),
            rewritten(md_text@, all) == rewritten(content@, all.take(i as int)),
            copies.deep_view() == copies_of(all).take(n - i),
        decreases i,
    {
        let image: &Image = images[i - 1];
        let ghost model: ImageModel = all[i - 1];
        proof {
            assert(all.take(i as int).drop_last() =~= all.take(i - 1));
            assert(all.take(i as int).last() == model);
            assert(model == image.deep_view());
        }
        let ext: &str = match extension(image.abs_path.as_str()) {
            Some(ext) => ext,
            None => {
                return Err(RenameError::MissingExtension);
            },
        };
        let raw: &String = match &image.raw_path {
            Some(raw) => raw,
            None => {
                return Err(RenameError::MissingReference);
            },
        };
        let name: String = new_name(i, ext);
        let mut target: String = String::from_str(directory(image.abs_path.as_str()));
        target.append(name.as_str());
        let mut reference: String = String::from_str(directory(raw.as_str()));
        reference.append(name.as_str());
        content = replace(content.as_str(), raw.as_str(), reference.as_str());
        let ghost old_copies: Seq<(Seq<char>, Seq<char>)> = copies.deep_view();
        copies.push((image.abs_path.clone(), target));
        proof {
            assert(copies.deep_view() =~= old_copies.push(
                (model.abs_path, new_path_of(i as nat, model.abs_path)),
            ));
            assert(copies.deep_view() =~= copies_of(all).take(n - i + 1));
        }
        i -= 1;
    }
    let mut new_md_file_path: String = String::from_str(directory(md_path));
    new_md_file_path.append(stem(md_path));
    new_md_file_path.append("_new.md");
    proof {
        reveal_strlit("_new.md");
        assert("_new.md"@ =~= seq!['_', 'n', 'e', 'w', '.', 'm', 'd']);
        assert(copies_of(all).take(n as int) =~= copies_of(all));
    }
    Ok(RenamePlan { mapping, copies, new_md_file_path, new_md_content: content })
}

/// The used images of `images`, in order.
pub open spec fn used_of(images: Seq<ImageModel>) -> Seq<ImageModel>
    decreases images.len(),
{
    if images.len() == 0 {
        Seq::empty()
    } else if images.last().used {
        used_of(images.drop_last()).push(images.last())
    } else {
        used_of(images.drop_last())
    }
}

/// What planning the renumbering of a session's used images comes to, the
/// text of its document being `md_text`.
pub open spec fn rename_outcome(app: AppModel, md_text: Seq<char>) -> Result<
    RenamePlanModel,
    RenameError,
> {
    match app.md_file_path {
        None => Err(RenameError::NoDocument),
        Some(md_path) => match first_defect(used_of(app.images)) {
            Some(defect) => Err(defect),
            None => Ok(plan_of(used_of(app.images), md_path, md_text)),
        },
    }
}

/// The used images of a catalog are images of the catalog, and used.
pub proof fn lemma_used_are_used(images: Seq<ImageModel>)
    ensures
        forall|k: int|
            0 <= k < used_of(images).len() ==> (#[trigger] used_of(images)[k]).used && exists|
                i: int,
            |
                0 <= i < images.len() && images[i] == used_of(images)[k],
    decreases images.len(),
{
    if images.len() > 0 {
        let front = images.drop_last();
        lemma_used_are_used(front);
        assert forall|k: int| 0 <= k < used_of(images).len() implies (#[trigger] used_of(
            images,
        )[k]).used && exists|i: int| 0 <= i < images.len() && images[i] == used_of(images)[k] by {
            if k < used_of(front).len() {
                assert(used_of(images)[k] == used_of(front)[k]);
                let i = choose|i: int| 0 <= i < front.len() && front[i] == used_of(front)[k];
                assert(images[i] == front[i]);
            } else {
                assert(used_of(images)[k] == images[images.len() - 1]);
            }
        }
    }
}

/// Images that each have an extension and a reference have no defect.
pub proof fn lemma_no_defect(images: Seq<ImageModel>)
    requires
        forall|i: int| 0 <= i < images.len() ==> defect_of(#[trigger] images[i]) is None,
    ensures
        first_defect(images) is None,
    decreases images.len(),
{
    if images.len() > 0 {
        let front = images.drop_last();
        assert forall|i: int| 0 <= i < front.len() implies defect_of(#[trigger] front[i])
            is None by {
            assert(front[i] == images[i]);
        }
        lemma_no_defect(front);
    }
}

/// The used images of a session can always be renamed: none lacks its
/// extension or its reference, and where one is used a document is chosen.
pub proof fn lemma_session_can_rename(app: AppModel)
    requires
        app.wf(),
    ensures
        first_defect(used_of(app.images)) is None,
        used_of(app.images).len() > 0 ==> app.md_file_path is Some,
{
    let used = used_of(app.images);
    lemma_used_are_used(app.images);
    assert forall|k: int| 0 <= k < used.len() implies defect_of(#[trigger] used[k]) is None by {
        let i = choose|i: int| 0 <= i < app.images.len() && app.images[i] == used[k];
        assert(app.images[i].wf());
        assert(is_image_path(app.images[i].abs_path));
    }
    lemma_no_defect(used);
    if used.len() > 0 {
        let i = choose|i: int| 0 <= i < app.images.len() && app.images[i] == used[0];
        assert(app.images[i].wf());
        assert(app.images[i].is_named_from(app.md_file_path));
    }
}

/// In the plan of a session's renaming, the used image number `k + 1` is
/// copied into its own directory, to its number followed by its
/// extension; and where its reference ends in a file name, the new
/// reference, written in the document, names the copy.
pub proof fn lemma_plan_names_the_copies(app: AppModel, md_text: Seq<char>, k: int)
    requires
        app.wf(),
        app.md_file_path is Some,
        0 <= k < used_of(app.images).len(),
    ensures
        ({
            let used = used_of(app.images);
            let image = used[k];
            let md_path = app.md_file_path.unwrap();
            let plan = plan_of(used, md_path, md_text);
            let copy = plan.copies[used.len() - 1 - k];
            &&& rename_outcome(app, md_text) == Ok::<RenamePlanModel, RenameError>(plan)
            &&& plan.copies.len() == used.len()
            &&& plan.mapping.len() == used.len()
            &&& image.raw_path is Some
            &&& extension_of(image.abs_path) is Some
            &&& copy.0 == image.abs_path
            &&& directory_of(copy.1) == directory_of(image.abs_path)
            &&& file_name_of(copy.1) == decimal((k + 1) as nat) + seq!['.'] + extension_of(
                image.abs_path,
            ).unwrap()
            &&& plan.mapping[k] == (file_name_of(image.abs_path), file_name_of(copy.1))
            &&& is_normal(file_name_of(image.raw_path.unwrap())) ==> same_file(
                joined(md_path, new_reference_of((k + 1) as nat, image)),
                copy.1,
            )
        }),
{
    let used = used_of(app.images);
    let image = used[k];
    let md_path = app.md_file_path.unwrap();
    lemma_session_can_rename(app);
    lemma_used_are_used(app.images);
    let i = choose|i: int| 0 <= i < app.images.len() && app.images[i] == used[k];
    assert(app.images[i].wf());
    assert(is_image_path(app.images[i].abs_path));
    assert(app.images[i].is_named_from(app.md_file_path));
    lemma_copy_is_numbered((k + 1) as nat, image.abs_path);
    if is_normal(file_name_of(image.raw_path.unwrap())) {
        lemma_new_reference_names_the_copy(md_path, image, (k + 1) as nat);
    }
}

impl App {
    /// Lists the used images, in catalog order.
    pub fn used_images(&self) -> (used: Vec<&Image>)
        ensures
            used.deep_view() == used_of(self@.images),
    {
        let images: &Vec<Image> = self.images();
        let mut used: Vec<&Image> = Vec::new();
        let mut i: usize = 0;
        let ghost all: Seq<ImageModel> = images.deep_view();
        assert(used.deep_view() =~= used_of(all.take(0)));
        while i < images.len()
            invariant
                i <= images.len(),
                all == images.deep_view(),
                used.deep_view() == used_of(all.take(i as int)),
            decreases images.len() - i,
        {
            let ghost before: Seq<ImageModel> = used.deep_view();
            assert(all.take(i + 1).drop_last() =~= all.take(i as int));
            assert(all.take(i + 1).last() == images@[i as int].deep_view());
            if images[i].used {
                used.push(&images[i]);
                assert(used.deep_view() =~= before.push(images@[i as int].deep_view()));
            }
            i += 1;
        }
        assert(all.take(images.len() as int) =~= all);
        used
    }

    /// Plans the renumbering of the used images, in catalog order, in the
    /// document chosen, whose text is `md_text`. The used images of a
    /// session can always be renamed: the plan fails only where no
    /// document is chosen, and then no image is used.
    pub fn rename_images(&self, md_text: &str) -> (planned: Result<RenamePlan, RenameError>)
        ensures
            match planned {
                Ok(plan) => self@.md_file_path is Some && rename_outcome(self@, md_text@) == Ok::<
                    RenamePlanModel,
                    RenameError,
                >(plan.deep_view()),
                Err(defect) => self@.md_file_path is None && defect == RenameError::NoDocument
                    && used_of(self@.images).len() == 0,
            },
    {
        let images: &Vec<Image> = self.images();
        proof {
            lemma_session_can_rename(self@);
            if self@.md_file_path is None && used_of(self@.images).len() > 0 {
                assert(false);
            }
        }
        match self.md_file_path() {
            None => Err(RenameError::NoDocument),
            Some(md_path) => {
                let used: Vec<&Image> = self.used_images();
                rename_plan(&used, md_path.as_str(), md_text)
            },
        }
    }
}

} // verus!
