//! Text as a sequence of characters, and the few string operations the rest
//! of the crate is built from.

use vstd::prelude::*;

verus! {

/// The characters of `s`, in order.
pub fn chars_of(s: &str) -> (v: Vec<char>)
    ensures
        v@ == s@,
{
    let mut v: Vec<char> = Vec::new();
    for c in it: s.chars()
        invariant
            v@ == it.seq().take(it.index()),
            it.seq() == s@,
    {
        v.push(c);
    }
    v
}

/// `pattern` stands in `text` at index `at`.
pub open spec fn occurs_at(text: Seq<char>, at: int, pattern: Seq<char>) -> bool {
    &&& 0 <= at
    &&& at + pattern.len() <= text.len()
    &&& text.subrange(at, at + pattern.len()) == pattern
}

/// Tests whether `pattern` stands in `text` at index `at`.
pub fn occurs(text: &Vec<char>, at: usize, pattern: &Vec<char>) -> (found: bool)
    ensures
        found == occurs_at(text@, at as int, pattern@),
{
    if at > text.len() || pattern.len() > text.len() - at {
        return false;
    }
    let mut k: usize = 0;
    while k < pattern.len()
        invariant
            at + pattern.len() <= text.len(),
            k <= pattern.len(),
            forall|j: int| 0 <= j < k ==> text@[at + j] == pattern@[j],
        decreases pattern.len() - k,
    {
        if text[at + k] != pattern[k] {
            assert(text@.subrange(at as int, at + pattern.len())[k as int] != pattern@[k as int]);
            return false;
        }
        k += 1;
    }
    assert(text@.subrange(at as int, at + pattern.len()) =~= pattern@);
    true
}

/// `text` with every occurrence of `from` replaced by `to`, found left to
/// right without overlap. An empty `from` occurs before every character and
/// at the end.
pub open spec fn replace_all(text: Seq<char>, from: Seq<char>, to: Seq<char>) -> Seq<char>
    decreases text.len(),
{
    if from.len() == 0 {
        if text.len() == 0 {
            to
        } else {
            to + text.take(1) + replace_all(text.skip(1), from, to)
        }
    } else if occurs_at(text, 0, from) {
        to + replace_all(text.skip(from.len() as int), from, to)
    } else if text.len() == 0 {
        text
    } else {
        text.take(1) + replace_all(text.skip(1), from, to)
    }
}

/// One step of `replace_all`, told at an index of the whole text.
pub proof fn lemma_replace_all_step(text: Seq<char>, i: int, from: Seq<char>, to: Seq<char>)
    requires
        0 <= i < text.len(),
    ensures
        from.len() == 0 ==> replace_all(text.skip(i), from, to) == to + text.subrange(i, i + 1)
            + replace_all(text.skip(i + 1), from, to),
        from.len() > 0 && occurs_at(text, i, from) ==> replace_all(text.skip(i), from, to) == to
            + replace_all(text.skip(i + from.len()), from, to),
        from.len() > 0 && !occurs_at(text, i, from) ==> replace_all(text.skip(i), from, to)
            == text.subrange(i, i + 1) + replace_all(text.skip(i + 1), from, to),
{
    let rest = text.skip(i);
    assert(rest.take(1) =~= text.subrange(i, i + 1));
    assert(rest.skip(1) =~= text.skip(i + 1));
    if i + from.len() <= text.len() {
        assert(rest.subrange(0, from.len() as int) =~= text.subrange(i, i + from.len()));
        assert(rest.skip(from.len() as int) =~= text.skip(i + from.len()));
    }
}

/// Replaces every occurrence of `from` in `text` by `to`.
pub fn replace(text: &str, from: &str, to: &str) -> (out: String)
    ensures
        out@ == replace_all(text@, from@, to@),
{
    let t: Vec<char> = chars_of(text);
    let f: Vec<char> = chars_of(from);
    let n: usize = t.len();
    let mut out: String = String::new();
    let mut i: usize = 0;
    let mut kept: usize = 0;
    assert(text@.skip(0) =~= text@);
    assert(out@ + text@.subrange(0, 0) =~= out@);
    while i < n
        invariant
            t@ == text@,
            f@ == from@,
            n == t.len(),
            kept <= i <= n,
            from@.len() == 0 ==> kept == i,
            out@ + text@.subrange(kept as int, i as int) + replace_all(
                text@.skip(i as int),
                from@,
                to@,
            ) == replace_all(text@, from@, to@),
        decreases n - i,
    {
        proof {
            lemma_replace_all_step(text@, i as int, from@, to@);
        }
        if f.len() == 0 {
            out.append(to);
            out.append(text.substring_char(i, i + 1));
            i += 1;
            kept = i;
            assert(out@ + text@.subrange(kept as int, i as int) =~= out@);
        } else if occurs(&t, i, &f) {
            out.append(text.substring_char(kept, i));
            out.append(to);
            i += f.len();
            kept = i;
            assert(out@ + text@.subrange(kept as int, i as int) =~= out@);
        } else {
            assert(text@.subrange(kept as int, i as int) + text@.subrange(i as int, i + 1)
                =~= text@.subrange(kept as int, i + 1));
            i += 1;
        }
    }
    assert(text@.skip(n as int) =~= Seq::<char>::empty());
    if f.len() == 0 {
        out.append(to);
    } else {
        out.append(text.substring_char(kept, n));
    }
    out
}

/// The character that writes the digit `d`.
pub open spec fn digit_char(d: nat) -> char {
    if d == 0 {
        '0'
    } else if d == 1 {
        '1'
    } else if d == 2 {
        '2'
    } else if d == 3 {
        '3'
    } else if d == 4 {
        '4'
    } else if d == 5 {
        '5'
    } else if d == 6 {
        '6'
    } else if d == 7 {
        '7'
    } else if d == 8 {
        '8'
    } else {
        '9'
    }
}

/// `n` written in decimal, without leading zeros.
pub open spec fn decimal(n: nat) -> Seq<char>
    decreases n,
{
    if n < 10 {
        seq![digit_char(n)]
    } else {
        decimal(n / 10).push(digit_char(n % 10))
    }
}

/// The decimal digits.
pub open spec fn is_digit(c: char) -> bool {
    c == '0' || c == '1' || c == '2' || c == '3' || c == '4' || c == '5' || c == '6' || c == '7'
        || c == '8' || c == '9'
}

/// A number in decimal is written in digits, at least one.
pub proof fn lemma_decimal_is_digits(n: nat)
    ensures
        decimal(n).len() > 0,
        forall|i: int| 0 <= i < decimal(n).len() ==> is_digit(#[trigger] decimal(n)[i]),
    decreases n,
{
    if n >= 10 {
        lemma_decimal_is_digits(n / 10);
    }
}

fn digit_text(d: usize) -> (s: &'static str)
    requires
        d < 10,
    ensures
        s@ == seq![digit_char(d as nat)],
{
    proof {
        reveal_strlit("0");
        reveal_strlit("1");
        reveal_strlit("2");
        reveal_strlit("3");
        reveal_strlit("4");
        reveal_strlit("5");
        reveal_strlit("6");
        reveal_strlit("7");
        reveal_strlit("8");
        reveal_strlit("9");
    }
    let s: &'static str = if d == 0 {
        "0"
    } else if d == 1 {
        "1"
    } else if d == 2 {
        "2"
    } else if d == 3 {
        "3"
    } else if d == 4 {
        "4"
    } else if d == 5 {
        "5"
    } else if d == 6 {
        "6"
    } else if d == 7 {
        "7"
    } else if d == 8 {
        "8"
    } else {
        "9"
    };
    assert(s@ =~= seq![digit_char(d as nat)]);
    s
}

/// Appends `n`, written in decimal, to `out`.
pub fn append_decimal(out: &mut String, n: usize)
    ensures
        final(out)@ == old(out)@ + decimal(n as nat),
    decreases n,
{
    if n >= 10 {
        append_decimal(out, n / 10);
    }
    out.append(digit_text(n % 10));
    assert(final(out)@ =~= old(out)@ + decimal(n as nat));
}

/// The lines joined by a line feed between each two.
pub open spec fn join_lines(lines: Seq<Seq<char>>) -> Seq<char>
    decreases lines.len(),
{
    if lines.len() == 0 {
        Seq::empty()
    } else if lines.len() == 1 {
        lines[0]
    } else {
        join_lines(lines.drop_last()) + seq!['\n'] + lines.last()
    }
}

/// Joins `lines[from..to]` by line feeds.
pub(crate) fn join_range(lines: &Vec<String>, from: usize, to: usize) -> (out: String)
    requires
        from <= to <= lines.len(),
    ensures
        out@ == join_lines(lines.deep_view().subrange(from as int, to as int)),
{
    let mut out: String = String::new();
    let mut i: usize = from;
    let ghost all: Seq<Seq<char>> = lines.deep_view();
    proof {
        reveal_strlit("\n");
    }
    while i < to
        invariant
            from <= i <= to <= lines.len(),
            all == lines.deep_view(),
            out@ == join_lines(all.subrange(from as int, i as int)),
            "\n"@ == seq!['\n'],
        decreases to - i,
    {
        let ghost before: Seq<Seq<char>> = all.subrange(from as int, i as int);
        let ghost after: Seq<Seq<char>> = all.subrange(from as int, i + 1);
        assert(after.drop_last() =~= before);
        assert(after.last() == lines@[i as int]@);
        if i > from {
            out.append("\n");
        }
        out.append(lines[i].as_str());
        i += 1;
        assert(out@ =~= join_lines(after));
    }
    out
}

} // verus!
