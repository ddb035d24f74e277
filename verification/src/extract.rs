//! Finds the image references of a document: markdown images
//! `![alt](target)` and HTML images `<img src="target">`.

use crate::app::App;
use crate::path::{resolve, resolved};
use vstd::prelude::*;

verus! {

/// The pattern of a markdown image; its first group takes the target.
pub const MARKDOWN_IMAGE: &'static str = r"!\[.*?\]\((.*?)\)";

/// The pattern of an HTML image; its first group takes the `src` value.
pub const HTML_IMAGE: &'static str = r#"<img[^>]*?src\s*=\s*["']?([^"'>]+)[^>]*>"#;

/// The error of `regex::Regex::new`.
#[verifier::external_type_specification]
#[verifier::external_body]
pub struct ExRegexError(regex::Error);

/// Whether `regex::Regex::new` accepts `pattern`.
pub uninterp spec fn is_accepted(pattern: Seq<char>) -> bool;

/// What the matches in `text` of the regex that `regex::Regex::new` makes
/// of `pattern` capture: for each match that `Regex::captures_iter`
/// yields, in order, the text of the first capture group, or `None` where
/// that group took no part in the match.
pub uninterp spec fn first_groups(pattern: Seq<char>, text: Seq<char>) -> Seq<Option<Seq<char>>>;

/// Compiles `pattern` with `regex::Regex::new` and walks the matches in
/// `text` with `Regex::captures_iter`, taking the first capture group of
/// each with `Captures::get` and `Match::as_str`. The contract only gives
/// the two outcomes their names: nothing is claimed of which patterns the
/// crate accepts, nor of what it finds.
#[verifier::external_body]
fn capture_first_groups(pattern: &str, text: &str) -> (found: Result<
    Vec<Option<String>>,
    regex::Error,
>)
    ensures
        found is Ok <==> is_accepted(pattern@),
        found matches Ok(groups) ==> groups.deep_view() == first_groups(pattern@, text@),
{
    let re = regex::Regex::new(pattern)?;
    Ok(re.captures_iter(text).map(|c| c.get(1).map(|m| m.as_str().to_string())).collect())
}

/// A reference to an image, as found in a document.
#[derive(Debug, PartialEq, Eq)]
pub struct ImageReference {
    /// The file referred to, resolved against the document's directory.
    pub abs_path: String,
    /// The target exactly as the document writes it.
    pub raw_path: String,
}

/// An `ImageReference` as plain text.
pub ghost struct ReferenceModel {
    pub abs_path: Seq<char>,
    pub raw_path: Seq<char>,
}

impl DeepView for ImageReference {
    type V = ReferenceModel;

    open spec fn deep_view(&self) -> ReferenceModel {
        ReferenceModel { abs_path: self.abs_path@, raw_path: self.raw_path@ }
    }
}

impl View for ImageReference {
    type V = ReferenceModel;

    open spec fn view(&self) -> ReferenceModel {
        self.deep_view()
    }
}

/// Which of the two patterns the `regex` crate refused.
#[derive(Debug, Clone, Copy, PartialEq, Eq)]
pub enum PatternError {
    /// The pattern of markdown images.
    Markdown,
    /// The pattern of HTML images.
    Html,
}

/// The references that the captured targets stand for, in order: each
/// target with the file it resolves to from the document at `document`. A
/// match whose group took no part gives no reference.
pub open spec fn references_of(document: Seq<char>, groups: Seq<Option<Seq<char>>>) -> Seq<
    ReferenceModel,
>
    decreases groups.len(),
{
    if groups.len() == 0 {
        Seq::empty()
    } else {
        let before = references_of(document, groups.drop_last());
        match groups.last() {
            Some(target) => before.push(
                ReferenceModel { abs_path: resolved(document, target), raw_path: target },
            ),
            None => before,
        }
    }
}

/// Every reference of `references` holds the file that its text resolves
/// to from the document at `document`.
pub open spec fn are_resolved(document: Seq<char>, references: Seq<ReferenceModel>) -> bool {
    forall|i: int|
        0 <= i < references.len() ==> (#[trigger] references[i]).abs_path == resolved(
            document,
            references[i].raw_path,
        )
}

/// The references made of captured targets hold the files that the
/// targets resolve to.
pub proof fn lemma_references_are_resolved(document: Seq<char>, groups: Seq<Option<Seq<char>>>)
    ensures
        are_resolved(document, references_of(document, groups)),
    decreases groups.len(),
{
    if groups.len() > 0 {
        let front = references_of(document, groups.drop_last());
        lemma_references_are_resolved(document, groups.drop_last());
        assert forall|i: int| 0 <= i < references_of(document, groups).len() implies (
        #[trigger] references_of(document, groups)[i]).abs_path == resolved(
            document,
            references_of(document, groups)[i].raw_path,
        ) by {
            if i < front.len() {
                assert(references_of(document, groups)[i] == front[i]);
            }
        }
    }
}

/// Where the first group took part in every match, every match gives its
/// reference: as many references as matches, in the order of the matches.
pub proof fn lemma_references_of_matches(document: Seq<char>, groups: Seq<Option<Seq<char>>>)
    requires
        forall|i: int| 0 <= i < groups.len() ==> (#[trigger] groups[i]) is Some,
    ensures
        references_of(document, groups).len() == groups.len(),
        forall|i: int|
            0 <= i < groups.len() ==> #[trigger] references_of(document, groups)[i] == (
            ReferenceModel {
                abs_path: resolved(document, groups[i].unwrap()),
                raw_path: groups[i].unwrap(),
            }),
    decreases groups.len(),
{
    if groups.len() > 0 {
        let front = groups.drop_last();
        assert forall|i: int| 0 <= i < front.len() implies (#[trigger] front[i]) is Some by {
            assert(front[i] == groups[i]);
        }
        lemma_references_of_matches(document, front);
        assert(groups.last() is Some);
        assert forall|i: int| 0 <= i < groups.len() implies #[trigger] references_of(
            document,
            groups,
        )[i] == (ReferenceModel {
            abs_path: resolved(document, groups[i].unwrap()),
            raw_path: groups[i].unwrap(),
        }) by {
            if i < front.len() {
                assert(front[i] == groups[i]);
                assert(references_of(document, groups)[i] == references_of(document, front)[i]);
            }
        }
    }
}

/// Turns captured targets into references, resolving each against the
/// directory of the document at `md_path`.
pub fn references_from(md_path: &str, groups: &Vec<Option<String>>) -> (found: Vec<ImageReference>)
    ensures
        found.deep_view() == references_of(md_path@, groups.deep_view()),
{
    let mut found: Vec<ImageReference> = Vec::new();
    let mut i: usize = 0;
    let ghost all: Seq<Option<Seq<char>>> = groups.deep_view();
    assert(found.deep_view() =~= references_of(md_path@, all.take(0)));
    while i < groups.len()
        invariant
            i <= groups.len(),
            all == groups.deep_view(),
            found.deep_view() == references_of(md_path@, all.take(i as int)),
        decreases groups.len() - i,
    {
        let ghost before: Seq<ReferenceModel> = found.deep_view();
        assert(all.take(i + 1).drop_last() =~= all.take(i as int));
        assert(all.take(i + 1).last() == groups@[i as int].deep_view());
        match &groups[i] {
            Some(target) => {
                let abs_path: String = resolve(md_path, target.as_str());
                found.push(ImageReference { abs_path, raw_path: target.clone() });
                assert(found.deep_view() =~= before.push(
                    ReferenceModel { abs_path: resolved(md_path@, target@), raw_path: target@ },
                ));
            },
            None => {},
        }
        i += 1;
    }
    assert(all.take(groups.len() as int) =~= all);
    found
}

/// The pattern that the `regex` crate refuses, if it refuses one: the
/// markdown pattern before the HTML pattern.
pub open spec fn refused_pattern() -> Option<PatternError> {
    if !is_accepted(MARKDOWN_IMAGE@) {
        Some(PatternError::Markdown)
    } else if !is_accepted(HTML_IMAGE@) {
        Some(PatternError::Html)
    } else {
        None
    }
}

/// The references of the document at `document` whose text is `text`:
/// those of its markdown images, then those of its HTML images, each kind
/// in the order of the matches.
pub open spec fn references_in(document: Seq<char>, text: Seq<char>) -> Seq<ReferenceModel> {
    references_of(document, first_groups(MARKDOWN_IMAGE@, text)) + references_of(
        document,
        first_groups(HTML_IMAGE@, text),
    )
}

/// Of a document in which the patterns match markdown images and HTML
/// images, each with its target, the references are as many as the
/// matches of both together: first those of the markdown images, in the
/// order of their matches, then those of the HTML images, in the order of
/// theirs.
pub proof fn lemma_markdown_before_html(document: Seq<char>, text: Seq<char>)
    requires
        forall|i: int|
            0 <= i < first_groups(MARKDOWN_IMAGE@, text).len() ==> (#[trigger] first_groups(
                MARKDOWN_IMAGE@,
                text,
            )[i]) is Some,
        forall|i: int|
            0 <= i < first_groups(HTML_IMAGE@, text).len() ==> (#[trigger] first_groups(
                HTML_IMAGE@,
                text,
            )[i]) is Some,
    ensures
        references_in(document, text).len() == first_groups(MARKDOWN_IMAGE@, text).len()
            + first_groups(HTML_IMAGE@, text).len(),
        forall|i: int|
            0 <= i < first_groups(MARKDOWN_IMAGE@, text).len() ==> (#[trigger] references_in(
                document,
                text,
            )[i]).raw_path == first_groups(MARKDOWN_IMAGE@, text)[i].unwrap(),
        forall|i: int|
            0 <= i < first_groups(HTML_IMAGE@, text).len() ==> (#[trigger] references_in(
                document,
                text,
            )[first_groups(MARKDOWN_IMAGE@, text).len() + i]).raw_path == first_groups(
                HTML_IMAGE@,
                text,
            )[i].unwrap(),
{
    let markdown = first_groups(MARKDOWN_IMAGE@, text);
    let html = first_groups(HTML_IMAGE@, text);
    lemma_references_of_matches(document, markdown);
    lemma_references_of_matches(document, html);
    let first = references_of(document, markdown);
    let second = references_of(document, html);
    assert forall|i: int| 0 <= i < html.len() implies (#[trigger] (first + second)[markdown.len()
        + i]).raw_path == html[i].unwrap() by {
        assert((first + second)[markdown.len() + i] == second[i]);
    }
    assert forall|i: int| 0 <= i < markdown.len() implies (#[trigger] (first
        + second)[i]).raw_path == markdown[i].unwrap() by {
        assert((first + second)[i] == first[i]);
    }
}

/// The references of a document hold the files that their texts resolve
/// to from the document.
pub proof fn lemma_references_in_are_resolved(document: Seq<char>, text: Seq<char>)
    ensures
        are_resolved(document, references_in(document, text)),
{
    let markdown = first_groups(MARKDOWN_IMAGE@, text);
    let html = first_groups(HTML_IMAGE@, text);
    lemma_references_are_resolved(document, markdown);
    lemma_references_are_resolved(document, html);
    let first = references_of(document, markdown);
    let second = references_of(document, html);
    assert forall|i: int| 0 <= i < (first + second).len() implies (#[trigger] (first
        + second)[i]).abs_path == resolved(document, (first + second)[i].raw_path) by {
        if i < first.len() {
            assert((first + second)[i] == first[i]);
        } else {
            assert((first + second)[i] == second[i - first.len()]);
        }
    }
}

impl App {
    /// Finds the image references in the text `md_text` of the document
    /// at `md_path`: first those written as markdown images, then those
    /// written as HTML images. Fails only if the `regex` crate refuses a
    /// pattern, whatever the document.
    pub fn find_md_images(md_path: &str, md_text: &str) -> (found: Result<
        Vec<ImageReference>,
        PatternError,
    >)
        ensures
            match found {
                Ok(references) => refused_pattern() is None && references.deep_view()
                    == references_in(md_path@, md_text@),
                Err(refused) => refused_pattern() == Some(refused),
            },
    {
        let markdown: Vec<Option<String>> = match capture_first_groups(MARKDOWN_IMAGE, md_text) {
            Ok(groups) => groups,
            Err(_) => {
                return Err(PatternError::Markdown);
            },
        };
        let html: Vec<Option<String>> = match capture_first_groups(HTML_IMAGE, md_text) {
            Ok(groups) => groups,
            Err(_) => {
                return Err(PatternError::Html);
            },
        };
        let mut references: Vec<ImageReference> = references_from(md_path, &markdown);
        let mut more: Vec<ImageReference> = references_from(md_path, &html);
        let ghost first: Seq<ReferenceModel> = references.deep_view();
        let ghost second: Seq<ReferenceModel> = more.deep_view();
        references.append(&mut more);
        assert(references.deep_view() =~= first + second);
        Ok(references)
    }
}

} // verus!
