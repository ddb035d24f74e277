//! Picks the image files out of a directory listing.

use crate::app::App;
use crate::path::{extension, extension_of};
use crate::text::chars_of;
use vstd::prelude::*;

verus! {

/// An entry of a directory listing.
#[derive(Debug, PartialEq, Eq)]
pub enum DirEntry {
    /// A file, by its path.
    File(String),
    /// A directory, by its entries in listing order.
    Dir(Vec<DirEntry>),
}

/// `c` in lower case, if it is an ASCII capital; else `c`.
pub open spec fn ascii_lower(c: char) -> char {
    if 'A' <= c && c <= 'Z' {
        ((c as u32) + 32) as char
    } else {
        c
    }
}

/// `s` with its ASCII capitals in lower case.
pub open spec fn lowercase(s: Seq<char>) -> Seq<char> {
    Seq::new(s.len(), |i: int| ascii_lower(s[i]))
}

/// The extensions of image files, whatever their case: `png`, `jpg`,
/// `jpeg`, `gif`, `webp`.
pub open spec fn is_image_extension(ext: Seq<char>) -> bool {
    let e = lowercase(ext);
    ||| e == seq!['p', 'n', 'g']
    ||| e == seq!['j', 'p', 'g']
    ||| e == seq!['j', 'p', 'e', 'g']
    ||| e == seq!['g', 'i', 'f']
    ||| e == seq!['w', 'e', 'b', 'p']
}

/// A path names an image when it has an extension and that is an image's.
pub open spec fn is_image_path(path: Seq<char>) -> bool {
    match extension_of(path) {
        Some(ext) => is_image_extension(ext),
        None => false,
    }
}

fn to_lower(c: char) -> (r: char)
    ensures
        r == ascii_lower(c),
{
    if c >= 'A' && c <= 'Z' {
        let code: u32 = c as u32;
        let lowered: u8 = (code + 32) as u8;
        lowered as char
    } else {
        c
    }
}

fn spells(ext: &Vec<char>, word: &str) -> (r: bool)
    ensures
        r == (lowercase(ext@) == word@),
{
    let letters: Vec<char> = chars_of(word);
    if ext.len() != letters.len() {
        return false;
    }
    let mut i: usize = 0;
    while i < ext.len()
        invariant
            i <= ext.len(),
            ext.len() == letters.len(),
            letters@ == word@,
            forall|j: int| 0 <= j < i ==> lowercase(ext@)[j] == word@[j],
        decreases ext.len() - i,
    {
        if to_lower(ext[i]) != letters[i] {
            assert(lowercase(ext@)[i as int] != word@[i as int]);
            return false;
        }
        i += 1;
    }
    assert(lowercase(ext@) =~= word@);
    true
}

/// Tests whether `path` names an image, by its extension.
pub fn is_image(path: &str) -> (r: bool)
    ensures
        r == is_image_path(path@),
{
    match extension(path) {
        Some(ext) => {
            let e: Vec<char> = chars_of(ext);
            proof {
                reveal_strlit("png");
                reveal_strlit("jpg");
                reveal_strlit("jpeg");
                reveal_strlit("gif");
                reveal_strlit("webp");
                assert("png"@ =~= seq!['p', 'n', 'g']);
                assert("jpg"@ =~= seq!['j', 'p', 'g']);
                assert("jpeg"@ =~= seq!['j', 'p', 'e', 'g']);
                assert("gif"@ =~= seq!['g', 'i', 'f']);
                assert("webp"@ =~= seq!['w', 'e', 'b', 'p']);
            }
            spells(&e, "png") || spells(&e, "jpg") || spells(&e, "jpeg") || spells(&e, "gif")
                || spells(&e, "webp")
        },
        None => false,
    }
}

/// The images under `entry`: the file itself if it is an image, or the
/// images of a directory's entries.
pub open spec fn images_in(entry: DirEntry) -> Seq<Seq<char>>
    decreases entry, 0int,
{
    match entry {
        DirEntry::File(path) => if is_image_path(path@) {
            seq![path@]
        } else {
            Seq::empty()
        },
        DirEntry::Dir(entries) => images_in_all(entries@),
    }
}

/// The images under `entries`, depth first and in listing order.
pub open spec fn images_in_all(entries: Seq<DirEntry>) -> Seq<Seq<char>>
    decreases entries, 1int,
{
    if entries.len() == 0 {
        Seq::empty()
    } else {
        images_in_all(entries.drop_last()) + images_in(entries.last())
    }
}

/// Whatever is found under an entry names an image.
pub proof fn lemma_found_in_entry(entry: DirEntry)
    ensures
        forall|i: int|
            0 <= i < images_in(entry).len() ==> is_image_path(#[trigger] images_in(entry)[i]),
    decreases entry, 0int,
{
    match entry {
        DirEntry::File(path) => {
            if is_image_path(path@) {
                assert(images_in(entry) =~= seq![path@]);
                assert(images_in(entry)[0] == path@);
            } else {
                assert(images_in(entry) =~= Seq::<Seq<char>>::empty());
            }
        },
        DirEntry::Dir(entries) => {
            lemma_found_are_images(entries@);
            assert(images_in(entry) == images_in_all(entries@));
        },
    }
}

/// Whatever is found in a listing names an image.
pub proof fn lemma_found_are_images(entries: Seq<DirEntry>)
    ensures
        forall|i: int|
            0 <= i < images_in_all(entries).len() ==> is_image_path(
                #[trigger] images_in_all(entries)[i],
            ),
    decreases entries, 1int,
{
    if entries.len() > 0 {
        let before = images_in_all(entries.drop_last());
        let last = images_in(entries.last());
        lemma_found_are_images(entries.drop_last());
        lemma_found_in_entry(entries.last());
        assert forall|i: int| 0 <= i < images_in_all(entries).len() implies is_image_path(
            #[trigger] images_in_all(entries)[i],
        ) by {
            if i < before.len() {
                assert(images_in_all(entries)[i] == before[i]);
            } else {
                assert(images_in_all(entries)[i] == last[i - before.len()]);
            }
        }
    }
}

impl App {
    /// Lists the image files of a directory listing, depth first and in
    /// listing order.
    pub fn find_dir_images(entries: &Vec<DirEntry>) -> (images: Vec<String>)
        ensures
            images.deep_view() == images_in_all(entries@),
        decreases entries,
    {
        let mut images: Vec<String> = Vec::new();
        let mut i: usize = 0;
        assert(images.deep_view() =~= images_in_all(entries@.take(0)));
        while i < entries.len()
            invariant
                i <= entries.len(),
                images.deep_view() == images_in_all(entries@.take(i as int)),
            decreases entries.len() - i,
        {
            let ghost before: Seq<Seq<char>> = images.deep_view();
            assert(entries@.take(i + 1).drop_last() =~= entries@.take(i as int));
            assert(entries@.take(i + 1).last() == entries@[i as int]);
            assert(images_in_all(entries@.take(i + 1)) == before + images_in(entries@[i as int]));
            match &entries[i] {
                DirEntry::File(path) => {
                    if is_image(path.as_str()) {
                        images.push(path.clone());
                        assert(images.deep_view() =~= before + seq![path@]);
                        assert(images_in(entries@[i as int]) == seq![path@]);
                    } else {
                        assert(images.deep_view() =~= before + Seq::<Seq<char>>::empty());
                        assert(images_in(entries@[i as int]) == Seq::<Seq<char>>::empty());
                    }
                },
                DirEntry::Dir(inner) => {
                    let mut found: Vec<String> = Self::find_dir_images(inner);
                    let ghost inside: Seq<Seq<char>> = found.deep_view();
                    images.append(&mut found);
                    assert(images.deep_view() =~= before + inside);
                    assert(images_in(entries@[i as int]) == inside);
                },
            }
            i += 1;
        }
        assert(entries@.take(entries.len() as int) =~= entries@);
        images
    }
}

} // verus!
