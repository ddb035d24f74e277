//! Paths as text. A path is cut into components at `/` and `\`; two paths
//! name the same file when they have the same components, whichever
//! separator they are written with.

use crate::text::chars_of;
use vstd::prelude::*;

verus! {

/// `/` and `\` both separate the components of a path.
pub open spec fn is_separator(c: char) -> bool {
    c == '/' || c == '\\'
}

/// Tests whether `c` separates components.
pub fn separates(c: char) -> (r: bool)
    ensures
        r == is_separator(c),
{
    c == '/' || c == '\\'
}

/// Where the file name of `path` starts: just behind its last separator, or
/// at 0 if it has none.
pub open spec fn name_start(path: Seq<char>) -> nat
    decreases path.len(),
{
    if path.len() == 0 {
        0
    } else if is_separator(path.last()) {
        path.len()
    } else {
        name_start(path.drop_last())
    }
}

/// The directory part of `path`, up to and including its last separator.
pub open spec fn directory_of(path: Seq<char>) -> Seq<char> {
    path.take(name_start(path) as int)
}

/// The file name of `path`: what follows its last separator.
pub open spec fn file_name_of(path: Seq<char>) -> Seq<char> {
    path.skip(name_start(path) as int)
}

/// The file name starts inside the path, right behind a separator if not at
/// 0, and holds no separator.
pub proof fn lemma_name_start(path: Seq<char>)
    ensures
        name_start(path) <= path.len(),
        name_start(path) > 0 ==> is_separator(path[name_start(path) - 1]),
        forall|i: int| name_start(path) <= i < path.len() ==> !is_separator(#[trigger] path[i]),
        directory_of(path) + file_name_of(path) == path,
    decreases path.len(),
{
    if path.len() > 0 && !is_separator(path.last()) {
        let front = path.drop_last();
        lemma_name_start(front);
        assert forall|i: int| name_start(path) <= i < path.len() implies !is_separator(
            #[trigger] path[i],
        ) by {
            if i < front.len() {
                assert(path[i] == front[i]);
            }
        }
    }
    assert(directory_of(path) + file_name_of(path) =~= path);
}

fn find_name_start(chars: &Vec<char>) -> (start: usize)
    ensures
        start == name_start(chars@),
        start <= chars.len(),
{
    let mut i: usize = chars.len();
    assert(chars@.take(i as int) =~= chars@);
    while i > 0 && !separates(chars[i - 1])
        invariant
            i <= chars.len(),
            name_start(chars@.take(i as int)) == name_start(chars@),
        decreases i,
    {
        assert(chars@.take(i as int).drop_last() =~= chars@.take(i - 1));
        i -= 1;
    }
    proof {
        start_of_take(chars@, i as int);
    }
    i
}

proof fn start_of_take(path: Seq<char>, i: int)
    requires
        0 <= i <= path.len(),
        i == 0 || is_separator(path[i - 1]),
    ensures
        name_start(path.take(i)) == i,
{
}

/// The directory part of `path`.
pub fn directory(path: &str) -> (dir: &str)
    ensures
        dir@ == directory_of(path@),
{
    let chars: Vec<char> = chars_of(path);
    let start: usize = find_name_start(&chars);
    path.substring_char(0, start)
}

/// The file name of `path`.
pub fn file_name(path: &str) -> (name: &str)
    ensures
        name@ == file_name_of(path@),
{
    let chars: Vec<char> = chars_of(path);
    let start: usize = find_name_start(&chars);
    path.substring_char(start, chars.len())
}

/// The index of the last `.` in `name`, or -1 if it has none.
pub open spec fn last_dot(name: Seq<char>) -> int
    decreases name.len(),
{
    if name.len() == 0 {
        -1
    } else if name.last() == '.' {
        name.len() - 1
    } else {
        last_dot(name.drop_last())
    }
}

/// The extension of `path`: what follows the last `.` of its file name,
/// unless that `.` is the name's first character or the name has none.
pub open spec fn extension_of(path: Seq<char>) -> Option<Seq<char>> {
    let name = file_name_of(path);
    if last_dot(name) > 0 {
        Some(name.skip(last_dot(name) + 1))
    } else {
        None
    }
}

/// The file name of `path` without its extension and the `.` before it.
pub open spec fn stem_of(path: Seq<char>) -> Seq<char> {
    let name = file_name_of(path);
    if last_dot(name) > 0 {
        name.take(last_dot(name))
    } else {
        name
    }
}

/// The last `.` lies inside the name.
pub proof fn lemma_last_dot(name: Seq<char>)
    ensures
        -1 <= last_dot(name) < name.len(),
        last_dot(name) >= 0 ==> name[last_dot(name)] == '.',
        forall|i: int| last_dot(name) < i < name.len() ==> #[trigger] name[i] != '.',
    decreases name.len(),
{
    if name.len() > 0 && name.last() != '.' {
        let front = name.drop_last();
        lemma_last_dot(front);
        assert forall|i: int| last_dot(name) < i < name.len() implies #[trigger] name[i]
            != '.' by {
            if i < front.len() {
                assert(name[i] == front[i]);
            }
        }
    }
}

/// The index in `chars` of the last `.` of the file name that starts at
/// `start`, if it is not the name's first character.
fn find_extension_dot(chars: &Vec<char>, start: usize) -> (dot: Option<usize>)
    requires
        start <= chars.len(),
    ensures
        match dot {
            Some(d) => start < d < chars.len() && last_dot(chars@.skip(start as int)) == d - start,
            None => last_dot(chars@.skip(start as int)) <= 0,
        },
{
    let ghost name: Seq<char> = chars@.skip(start as int);
    let mut i: usize = chars.len();
    assert(name.take(i - start) =~= name);
    while i > start && chars[i - 1] != '.'
        invariant
            start <= i <= chars.len(),
            name == chars@.skip(start as int),
            last_dot(name.take(i - start)) == last_dot(name),
        decreases i,
    {
        assert(name.take(i - start).drop_last() =~= name.take(i - start - 1));
        i -= 1;
    }
    if i - start > 1 {
        assert(name.take(i - start).last() == '.');
        Some(i - 1)
    } else {
        proof {
            if i == start + 1 {
                assert(name.take(i - start).last() == '.');
            }
        }
        None
    }
}

/// The extension of `path`, if it has one.
pub fn extension(path: &str) -> (ext: Option<&str>)
    ensures
        match ext {
            Some(e) => extension_of(path@) == Some(e@),
            None => extension_of(path@) is None,
        },
{
    let chars: Vec<char> = chars_of(path);
    let start: usize = find_name_start(&chars);
    match find_extension_dot(&chars, start) {
        Some(dot) => {
            let ext: &str = path.substring_char(dot + 1, chars.len());
            assert(ext@ =~= file_name_of(path@).skip(last_dot(file_name_of(path@)) + 1));
            Some(ext)
        },
        None => None,
    }
}

/// The file name of `path` without its extension.
pub fn stem(path: &str) -> (name: &str)
    ensures
        name@ == stem_of(path@),
{
    let chars: Vec<char> = chars_of(path);
    let start: usize = find_name_start(&chars);
    match find_extension_dot(&chars, start) {
        Some(dot) => {
            let name: &str = path.substring_char(start, dot);
            assert(name@ =~= file_name_of(path@).take(last_dot(file_name_of(path@))));
            name
        },
        None => path.substring_char(start, chars.len()),
    }
}

/// The length of the first component of `path`: the index of its first
/// separator, or its length if it has none.
pub open spec fn first_break(path: Seq<char>) -> nat
    decreases path.len(),
{
    if path.len() == 0 || is_separator(path[0]) {
        0
    } else {
        1 + first_break(path.skip(1))
    }
}

proof fn lemma_first_break(path: Seq<char>, k: int)
    requires
        0 <= k <= path.len(),
        forall|j: int| 0 <= j < k ==> !is_separator(#[trigger] path[j]),
        k == path.len() || is_separator(path[k]),
    ensures
        first_break(path) == k,
    decreases k,
{
    if k > 0 {
        let rest = path.skip(1);
        assert forall|j: int| 0 <= j < k - 1 implies !is_separator(#[trigger] rest[j]) by {
            assert(rest[j] == path[j + 1]);
        }
        lemma_first_break(rest, k - 1);
    }
}

/// A component counts unless it is empty or `.`.
pub open spec fn is_normal(part: Seq<char>) -> bool {
    part.len() > 0 && part != seq!['.']
}

/// The components of `path`, in order: the stretches between its separators,
/// without the empty ones and without `.`.
pub open spec fn components(path: Seq<char>) -> Seq<Seq<char>>
    decreases path.len(),
{
    if path.len() == 0 {
        Seq::empty()
    } else {
        let end = first_break(path) as int;
        let head = path.take(end);
        let tail = if end < path.len() {
            components(path.skip(end + 1))
        } else {
            Seq::empty()
        };
        if is_normal(head) {
            seq![head] + tail
        } else {
            tail
        }
    }
}

/// A path that starts with a separator starts at the root.
pub open spec fn is_rooted(path: Seq<char>) -> bool {
    path.len() > 0 && is_separator(path[0])
}

/// The parts joined by `/`.
pub open spec fn join_components(parts: Seq<Seq<char>>) -> Seq<char>
    decreases parts.len(),
{
    if parts.len() == 0 {
        Seq::empty()
    } else if parts.len() == 1 {
        parts[0]
    } else {
        join_components(parts.drop_last()) + seq!['/'] + parts.last()
    }
}

/// The canonical spelling of `path`: its components joined by `/`, behind a
/// leading `/` if the path starts at the root.
pub open spec fn canonical(path: Seq<char>) -> Seq<char> {
    if is_rooted(path) {
        seq!['/'] + join_components(components(path))
    } else {
        join_components(components(path))
    }
}

/// Two paths name the same file when their canonical spellings agree.
pub open spec fn same_file(a: Seq<char>, b: Seq<char>) -> bool {
    canonical(a) == canonical(b)
}

proof fn lemma_components_step(path: Seq<char>, i: int, e: int)
    requires
        0 <= i < path.len(),
        i <= e <= path.len(),
        forall|j: int| i <= j < e ==> !is_separator(#[trigger] path[j]),
        e == path.len() || is_separator(path[e]),
    ensures
        components(path.skip(i)) == (if is_normal(path.subrange(i, e)) {
            seq![path.subrange(i, e)]
        } else {
            Seq::empty()
        }) + components(path.skip(if e < path.len() { e + 1 } else { e })),
{
    let rest = path.skip(i);
    assert forall|j: int| 0 <= j < e - i implies !is_separator(#[trigger] rest[j]) by {
        assert(rest[j] == path[i + j]);
    }
    lemma_first_break(rest, e - i);
    assert(rest.take(e - i) =~= path.subrange(i, e));
    if e < path.len() {
        assert(rest.skip(e - i + 1) =~= path.skip(e + 1));
    } else {
        assert(path.skip(e).len() == 0);
    }
    let tail = components(path.skip(if e < path.len() { e + 1 } else { e }));
    assert(Seq::<Seq<char>>::empty() + tail =~= tail);
}

/// Writes `path` in its canonical spelling.
pub fn canonicalize(path: &str) -> (out: String)
    ensures
        out@ == canonical(path@),
{
    let chars: Vec<char> = chars_of(path);
    let n: usize = chars.len();
    let mut out: String = String::new();
    proof {
        reveal_strlit("/");
    }
    if n > 0 && separates(chars[0]) {
        out.append("/");
    }
    let ghost root: Seq<char> = out@;
    let ghost mut emitted: Seq<Seq<char>> = Seq::empty();
    let mut first: bool = true;
    let mut i: usize = 0;
    assert(path@.skip(0) =~= path@);
    assert(emitted + components(path@) =~= components(path@));
    assert(out@ =~= root + join_components(emitted));
    while i < n
        invariant
            chars@ == path@,
            n == chars.len(),
            i <= n,
            first == (emitted.len() == 0),
            out@ == root + join_components(emitted),
            emitted + components(path@.skip(i as int)) == components(path@),
            "/"@ == seq!['/'],
        decreases n - i,
    {
        let mut e: usize = i;
        while e < n && !separates(chars[e])
            invariant
                i <= e <= n,
                chars@ == path@,
                n == chars.len(),
                forall|j: int| i <= j < e ==> !is_separator(#[trigger] path@[j]),
            decreases n - e,
        {
            e += 1;
        }
        let ghost part: Seq<char> = path@.subrange(i as int, e as int);
        let ghost next: int = if e < n { e + 1 } else { e as int };
        let ghost before: Seq<Seq<char>> = emitted;
        proof {
            lemma_components_step(path@, i as int, e as int);
        }
        let normal: bool = e > i && !(e - i == 1 && chars[i] == '.');
        proof {
            if e - i == 1 && chars[i as int] == '.' {
                assert(part =~= seq!['.']);
            }
            if part == seq!['.'] {
                assert(part.len() == 1);
                assert(part[0] == '.');
            }
            assert(normal == is_normal(part));
        }
        if normal {
            if !first {
                out.append("/");
            }
            out.append(path.substring_char(i, e));
            proof {
                emitted = before.push(part);
                assert(emitted.drop_last() =~= before);
                assert(out@ =~= root + join_components(emitted));
                assert(emitted + components(path@.skip(next)) =~= before + (seq![part]
                    + components(path@.skip(next))));
            }
            first = false;
        }
        i = if e < n {
            e + 1
        } else {
            e
        };
    }
    assert(path@.skip(n as int).len() == 0);
    assert(emitted + Seq::<Seq<char>>::empty() =~= emitted);
    out
}

/// `target`, written in the document at `document`, as a path of its own:
/// `target` itself if it starts at the root, else `target` appended to the
/// document's directory.
pub open spec fn joined(document: Seq<char>, target: Seq<char>) -> Seq<char> {
    if is_rooted(target) {
        target
    } else {
        directory_of(document) + target
    }
}

/// The file that `target`, written in the document at `document`, refers
/// to, in its canonical spelling.
pub open spec fn resolved(document: Seq<char>, target: Seq<char>) -> Seq<char> {
    canonical(joined(document, target))
}

/// Resolves `target` against the directory of the document at `document`.
pub fn resolve(document: &str, target: &str) -> (out: String)
    ensures
        out@ == resolved(document@, target@),
{
    let chars: Vec<char> = chars_of(target);
    if chars.len() > 0 && separates(chars[0]) {
        canonicalize(target)
    } else {
        let mut joined: String = String::from_str(directory(document));
        joined.append(target);
        canonicalize(joined.as_str())
    }
}

/// A text without separator.
pub open spec fn is_name(name: Seq<char>) -> bool {
    forall|i: int| 0 <= i < name.len() ==> !is_separator(#[trigger] name[i])
}

/// A text that is empty or ends with a separator.
pub open spec fn is_directory(dir: Seq<char>) -> bool {
    dir.len() == 0 || is_separator(dir.last())
}

/// The directory part of a path is a directory, its file name a name.
pub proof fn lemma_parts(path: Seq<char>)
    ensures
        is_directory(directory_of(path)),
        is_name(file_name_of(path)),
        directory_of(path) + file_name_of(path) == path,
{
    lemma_name_start(path);
    let name = file_name_of(path);
    assert forall|i: int| 0 <= i < name.len() implies !is_separator(#[trigger] name[i]) by {
        assert(name[i] == path[name_start(path) + i]);
    }
}

/// A name behind a directory is the file name of the two together.
pub proof fn lemma_parts_of_join(dir: Seq<char>, name: Seq<char>)
    requires
        is_directory(dir),
        is_name(name),
    ensures
        name_start(dir + name) == dir.len(),
        directory_of(dir + name) == dir,
        file_name_of(dir + name) == name,
    decreases name.len(),
{
    let path = dir + name;
    if name.len() == 0 {
        assert(path =~= dir);
    } else {
        assert(path.last() == name.last());
        assert(path.drop_last() =~= dir + name.drop_last());
        assert forall|i: int| 0 <= i < name.drop_last().len() implies !is_separator(
            #[trigger] name.drop_last()[i],
        ) by {
            assert(name.drop_last()[i] == name[i]);
        }
        lemma_parts_of_join(dir, name.drop_last());
    }
    assert(path.take(dir.len() as int) =~= dir);
    assert(path.skip(dir.len() as int) =~= name);
}

/// The first component ends inside the path, before its first separator.
pub proof fn lemma_first_break_ends(path: Seq<char>)
    ensures
        first_break(path) <= path.len(),
        forall|j: int| 0 <= j < first_break(path) ==> !is_separator(#[trigger] path[j]),
        first_break(path) < path.len() ==> is_separator(path[first_break(path) as int]),
    decreases path.len(),
{
    if path.len() > 0 && !is_separator(path[0]) {
        let rest = path.skip(1);
        lemma_first_break_ends(rest);
        assert forall|j: int| 0 <= j < first_break(path) implies !is_separator(
            #[trigger] path[j],
        ) by {
            if j > 0 {
                assert(path[j] == rest[j - 1]);
            }
        }
        if first_break(path) < path.len() {
            assert(path[first_break(path) as int] == rest[first_break(rest) as int]);
        }
    }
}

/// A name has itself for its one component, unless it is empty or `.`.
pub proof fn lemma_components_of_name(name: Seq<char>)
    requires
        is_name(name),
    ensures
        components(name) == if is_normal(name) {
            seq![name]
        } else {
            Seq::empty()
        },
{
    if name.len() > 0 {
        lemma_first_break(name, name.len() as int);
        assert(name.take(name.len() as int) =~= name);
        assert(seq![name] + Seq::<Seq<char>>::empty() =~= seq![name]);
    }
}

/// The components of a path behind a directory are those of the
/// directory, then those of the path.
pub proof fn lemma_components_of_join(dir: Seq<char>, path: Seq<char>)
    requires
        is_directory(dir),
    ensures
        components(dir + path) == components(dir) + components(path),
    decreases dir.len(),
{
    let whole = dir + path;
    if dir.len() == 0 {
        assert(whole =~= path);
        assert(Seq::<Seq<char>>::empty() + components(path) =~= components(path));
    } else {
        lemma_first_break_ends(dir);
        let end = first_break(dir) as int;
        if end == dir.len() {
            assert(!is_separator(dir[dir.len() - 1]));
        }
        assert forall|j: int| 0 <= j < end implies !is_separator(#[trigger] whole[j]) by {
            assert(whole[j] == dir[j]);
        }
        assert(whole[end] == dir[end]);
        lemma_first_break(whole, end);
        assert(whole.take(end) =~= dir.take(end));
        let rest = dir.skip(end + 1);
        assert(whole.skip(end + 1) =~= rest + path);
        if rest.len() > 0 {
            assert(rest.last() == dir.last());
        }
        lemma_components_of_join(rest, path);
        let tail = components(rest);
        if is_normal(dir.take(end)) {
            assert(seq![dir.take(end)] + (tail + components(path)) =~= (seq![dir.take(end)]
                + tail) + components(path));
        }
    }
}

/// Every component is a name, and neither empty nor `.`.
pub proof fn lemma_components_are_names(path: Seq<char>)
    ensures
        forall|i: int|
            0 <= i < components(path).len() ==> is_normal(#[trigger] components(path)[i])
                && is_name(components(path)[i]),
    decreases path.len(),
{
    if path.len() > 0 {
        lemma_first_break_ends(path);
        let end = first_break(path) as int;
        let head = path.take(end);
        assert forall|j: int| 0 <= j < head.len() implies !is_separator(#[trigger] head[j]) by {
            assert(head[j] == path[j]);
        }
        let tail = if end < path.len() {
            components(path.skip(end + 1))
        } else {
            Seq::empty()
        };
        if end < path.len() {
            lemma_components_are_names(path.skip(end + 1));
        }
        assert forall|i: int| 0 <= i < components(path).len() implies is_normal(
            #[trigger] components(path)[i],
        ) && is_name(components(path)[i]) by {
            if is_normal(head) {
                if i > 0 {
                    assert(components(path)[i] == tail[i - 1]);
                }
            } else {
                assert(components(path)[i] == tail[i]);
            }
        }
    }
}

/// Parts that can be told apart again once they are joined: names, none
/// of them empty.
pub open spec fn are_names(parts: Seq<Seq<char>>) -> bool {
    forall|i: int| 0 <= i < parts.len() ==> (#[trigger] parts[i]).len() > 0 && is_name(parts[i])
}

proof fn lemma_join_parts(parts: Seq<Seq<char>>)
    requires
        are_names(parts),
        parts.len() > 0,
    ensures
        join_components(parts).len() > 0,
        !is_separator(join_components(parts)[0]),
        file_name_of(join_components(parts)) == parts.last(),
        directory_of(join_components(parts)) == if parts.len() == 1 {
            Seq::<char>::empty()
        } else {
            join_components(parts.drop_last()) + seq!['/']
        },
    decreases parts.len(),
{
    let last = parts.last();
    assert(last.len() > 0 && is_name(last));
    if parts.len() == 1 {
        assert(!is_separator(last[0]));
        lemma_parts_of_join(Seq::empty(), last);
        assert(Seq::<char>::empty() + last =~= last);
    } else {
        let front = parts.drop_last();
        assert forall|i: int| 0 <= i < front.len() implies (#[trigger] front[i]).len() > 0
            && is_name(front[i]) by {
            assert(front[i] == parts[i]);
        }
        lemma_join_parts(front);
        let dir = join_components(front) + seq!['/'];
        assert(dir.last() == '/');
        lemma_parts_of_join(dir, last);
        assert(join_components(parts)[0] == join_components(front)[0]);
    }
}

/// Names, none of them empty, are joined to different texts unless they
/// are the same names.
pub proof fn lemma_join_tells_apart(one: Seq<Seq<char>>, other: Seq<Seq<char>>)
    requires
        are_names(one),
        are_names(other),
        join_components(one) == join_components(other),
    ensures
        one == other,
    decreases one.len(),
{
    if one.len() == 0 {
        if other.len() > 0 {
            lemma_join_parts(other);
        }
        assert(one =~= other);
    } else {
        lemma_join_parts(one);
        if other.len() == 0 {
            assert(false);
        }
        lemma_join_parts(other);
        assert(one.last() == other.last());
        if one.len() == 1 {
            if other.len() > 1 {
                assert(directory_of(join_components(other)).len() > 0);
            }
            assert(one =~= other);
        } else {
            if other.len() == 1 {
                assert(directory_of(join_components(one)).len() > 0);
            }
            let front = one.drop_last();
            let other_front = other.drop_last();
            assert forall|i: int| 0 <= i < front.len() implies (#[trigger] front[i]).len() > 0
                && is_name(front[i]) by {
                assert(front[i] == one[i]);
            }
            assert forall|i: int| 0 <= i < other_front.len() implies (
            #[trigger] other_front[i]).len() > 0 && is_name(other_front[i]) by {
                assert(other_front[i] == other[i]);
            }
            let a = join_components(front);
            let b = join_components(other_front);
            assert(a + seq!['/'] == b + seq!['/']);
            assert(a =~= (a + seq!['/']).drop_last());
            assert(b =~= (b + seq!['/']).drop_last());
            lemma_join_tells_apart(front, other_front);
            assert(one =~= front.push(one.last()));
            assert(other =~= other_front.push(other.last()));
        }
    }
}

/// Paths with the same canonical spelling have the same components, and
/// start at the root or not alike.
pub proof fn lemma_same_file_same_components(one: Seq<char>, other: Seq<char>)
    requires
        same_file(one, other),
    ensures
        is_rooted(one) == is_rooted(other),
        components(one) == components(other),
{
    let a = components(one);
    let b = components(other);
    lemma_components_are_names(one);
    lemma_components_are_names(other);
    if a.len() > 0 {
        lemma_join_parts(a);
    }
    if b.len() > 0 {
        lemma_join_parts(b);
    }
    let ja = join_components(a);
    let jb = join_components(b);
    if is_rooted(one) && is_rooted(other) {
        assert(ja =~= (seq!['/'] + ja).skip(1));
        assert(jb =~= (seq!['/'] + jb).skip(1));
    } else if is_rooted(one) {
        assert((seq!['/'] + ja)[0] == '/');
        assert(false);
    } else if is_rooted(other) {
        assert((seq!['/'] + jb)[0] == '/');
        assert(false);
    }
    lemma_join_tells_apart(a, b);
}

/// Names that are neither empty nor `.`, once joined, are the components
/// of what they are joined to.
pub proof fn lemma_components_of_joined(parts: Seq<Seq<char>>)
    requires
        forall|i: int| 0 <= i < parts.len() ==> is_normal(#[trigger] parts[i]) && is_name(parts[i]),
    ensures
        components(join_components(parts)) == parts,
    decreases parts.len(),
{
    if parts.len() == 0 {
    } else if parts.len() == 1 {
        lemma_components_of_name(parts[0]);
        assert(parts =~= seq![parts[0]]);
    } else {
        let front = parts.drop_last();
        let last = parts.last();
        assert forall|i: int| 0 <= i < front.len() implies is_normal(#[trigger] front[i])
            && is_name(front[i]) by {
            assert(front[i] == parts[i]);
        }
        lemma_components_of_joined(front);
        let before = join_components(front);
        let slash = seq!['/'];
        lemma_parts(before);
        let dir = directory_of(before);
        let name = file_name_of(before);
        // the components of `before + "/"` are those of `before`
        assert((dir + name) + slash =~= dir + (name + slash));
        lemma_components_of_join(dir, name + slash);
        lemma_components_of_join(dir, name);
        lemma_components_of_name(name);
        assert(components(name + slash) == components(name)) by {
            let with = name + slash;
            assert forall|j: int| 0 <= j < name.len() implies !is_separator(#[trigger] with[j]) by {
                assert(with[j] == name[j]);
            }
            assert(with[name.len() as int] == '/');
            lemma_first_break(with, name.len() as int);
            assert(with.take(name.len() as int) =~= name);
            assert(with.skip(name.len() as int + 1).len() == 0);
            assert(components(with.skip(name.len() as int + 1)).len() == 0);
            assert(seq![name] + Seq::<Seq<char>>::empty() =~= seq![name]);
        }
        assert(components(before + slash) == front);
        assert((before + slash).last() == '/');
        lemma_components_of_join(before + slash, last);
        lemma_components_of_name(last);
        assert(parts =~= front + seq![last]);
    }
}

/// The canonical spelling of a path names the same file as the path, and
/// is its own canonical spelling.
pub proof fn lemma_canonical_is_canonical(path: Seq<char>)
    ensures
        is_rooted(canonical(path)) == is_rooted(path),
        components(canonical(path)) == components(path),
        canonical(canonical(path)) == canonical(path),
        same_file(canonical(path), path),
{
    let parts = components(path);
    lemma_components_are_names(path);
    lemma_components_of_joined(parts);
    let together = join_components(parts);
    if parts.len() > 0 {
        assert(parts[0].len() > 0 && is_name(parts[0]));
        lemma_join_parts(parts);
    }
    if is_rooted(path) {
        let slash = seq!['/'];
        assert((slash + together)[0] == '/');
        assert(slash.last() == '/');
        lemma_components_of_join(slash, together);
        assert(components(slash) =~= Seq::<Seq<char>>::empty()) by {
            lemma_first_break(slash, 0);
            assert(slash.take(0).len() == 0);
            assert(slash.skip(1).len() == 0);
            assert(components(slash.skip(1)).len() == 0);
        }
        assert(Seq::<Seq<char>>::empty() + parts =~= parts);
    }
}

} // verus!
