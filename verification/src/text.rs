//! Text building: conversion to and from characters, decimal numbers,
//! placeholder replacement and the last segment of a path.

use vstd::prelude::*;

verus! {

/// `String::push` appends the given character to the end of the string.
pub assume_specification[ String::push ](s: &mut String, c: char)
    ensures
        final(s)@ == old(s)@.push(c),
;

/// `String::from(&str)` makes a string with the characters of the slice.
pub assume_specification<'a>[ <String as std::convert::From<&'a str>>::from ](s: &str) -> (r: String)
    ensures
        r@ == s@,
;

/// `From` of a type into itself returns its argument unchanged.
pub assume_specification<Source>[ <Source as std::convert::From<Source>>::from ](
    t: Source,
) -> (r: Source)
    ensures
        r == t,
;

/// `text` is what converting `source` into a `String` gives.
pub open spec fn converts_to<A: Into<String>>(source: A, text: Seq<char>) -> bool {
    exists|s: String| #[trigger] call_ensures(A::into, (source,), s) && s@ == text
}

/// Whether two texts hold the same characters.
pub fn same_text(a: &str, b: &str) -> (r: bool)
    ensures
        r == (a@ == b@),
{
    a.to_owned() == b.to_owned()
}

/// The characters of a text.
pub fn chars_of(s: &str) -> (v: Vec<char>)
    ensures
        v@ == s@,
{
    let mut out: Vec<char> = Vec::new();
    for c in it: s.chars()
        invariant
            out@ == it.seq().take(it.index() as int),
    {
        out.push(c);
        assert(it.seq().take(it.index() + 1) == it.seq().take(it.index() as int).push(c));
    }
    out
}

/// The decimal digit of value `d`.
pub open spec fn digit_char(d: int) -> char {
    (48 + d) as char
}

/// The decimal digits of `n`, without leading zeros.
pub open spec fn digits(n: nat) -> Seq<char>
    decreases n,
{
    if n < 10 {
        seq![digit_char(n as int)]
    } else {
        digits(n / 10).push(digit_char((n % 10) as int))
    }
}

/// The decimal notation of `n`, with a minus sign where it is negative.
pub open spec fn decimal(n: int) -> Seq<char> {
    if n < 0 {
        seq!['-'] + digits((-n) as nat)
    } else {
        digits(n as nat)
    }
}

fn push_digits(n: u64, out: &mut String)
    ensures
        final(out)@ == old(out)@ + digits(n as nat),
    decreases n,
{
    if n >= 10 {
        push_digits(n / 10, out);
    }
    let d: u8 = (n % 10) as u8;
    out.push((48u8 + d) as char);
}

/// The decimal notation of a signed number.
pub fn decimal_signed(n: i64) -> (r: String)
    ensures
        r@ == decimal(n as int),
{
    let mut out = String::new();
    if n < 0 {
        out.push('-');
        let magnitude: u64 = (-(n + 1)) as u64 + 1;
        push_digits(magnitude, &mut out);
    } else {
        push_digits(n as u64, &mut out);
    }
    out
}

/// The decimal notation of an unsigned number.
pub fn decimal_unsigned(n: u64) -> (r: String)
    ensures
        r@ == decimal(n as int),
{
    let mut out = String::new();
    push_digits(n, &mut out);
    out
}

/// Whether `pattern` stands in `text` at position `at`.
pub open spec fn occurs_at(text: Seq<char>, pattern: Seq<char>, at: int) -> bool {
    &&& 0 <= at
    &&& at + pattern.len() <= text.len()
    &&& text.subrange(at, at + pattern.len()) == pattern
}

/// Whether `pattern` stands anywhere in `text`.
pub open spec fn contains_text(text: Seq<char>, pattern: Seq<char>) -> bool {
    exists|at: int| occurs_at(text, pattern, at)
}

/// `text` with each occurrence of the non-empty `pattern` replaced by `with`,
/// where occurrences are taken from the left and do not overlap.
pub open spec fn replaced(text: Seq<char>, pattern: Seq<char>, with: Seq<char>) -> Seq<char>
    recommends
        pattern.len() > 0,
    decreases text.len(),
{
    if pattern.len() == 0 || text.len() == 0 {
        text
    } else if occurs_at(text, pattern, 0) {
        with + replaced(text.skip(pattern.len() as int), pattern, with)
    } else {
        seq![text[0]] + replaced(text.skip(1), pattern, with)
    }
}

fn occurs_here(text: &Vec<char>, pattern: &Vec<char>, at: usize) -> (r: bool)
    requires
        at <= text@.len(),
    ensures
        r == occurs_at(text@, pattern@, at as int),
{
    let total: usize = text.len();
    if total - at < pattern.len() {
        return false;
    }
    let mut i: usize = 0;
    while i < pattern.len()
        invariant
            i <= pattern@.len(),
            at + pattern@.len() <= total,
            total == text@.len(),
            text@.subrange(at as int, at + i) == pattern@.take(i as int),
        decreases pattern@.len() - i,
    {
        if text[at + i] != pattern[i] {
            assert(text@.subrange(at as int, at + pattern@.len())[i as int] == text@[at + i]);
            return false;
        }
        assert(text@.subrange(at as int, at + i + 1) == text@.subrange(at as int, at + i).push(
            text@[at + i],
        ));
        assert(pattern@.take(i + 1) == pattern@.take(i as int).push(pattern@[i as int]));
        i = i + 1;
    }
    assert(pattern@.take(i as int) == pattern@);
    true
}

/// Replaces every occurrence of `pattern` in `text` by `with`.
pub fn replace_all(text: &str, pattern: &str, with: &str) -> (r: String)
    requires
        pattern@.len() > 0,
    ensures
        r@ == replaced(text@, pattern@, with@),
{
    let source = chars_of(text);
    let wanted = chars_of(pattern);
    let mut out = String::new();
    let mut i: usize = 0;
    assert(source@.skip(0) == source@);
    while i < source.len()
        invariant
            i <= source@.len(),
            wanted@ == pattern@,
            wanted@.len() > 0,
            out@ + replaced(source@.skip(i as int), pattern@, with@) == replaced(
                source@,
                pattern@,
                with@,
            ),
        decreases source@.len() - i,
    {
        let ghost rest = source@.skip(i as int);
        let here = occurs_here(&source, &wanted, i);
        assert(occurs_at(rest, pattern@, 0) == occurs_at(source@, pattern@, i as int)) by {
            if i + pattern@.len() <= source@.len() {
                assert(rest.subrange(0, pattern@.len() as int) == source@.subrange(
                    i as int,
                    i + pattern@.len(),
                ));
            }
        }
        if here {
            out.append(with);
            assert(rest.skip(pattern@.len() as int) == source@.skip(i + pattern@.len()));
            i = i + wanted.len();
        } else {
            out.push(source[i]);
            assert(rest.skip(1) == source@.skip(i + 1));
            i = i + 1;
        }
    }
    out
}

/// What follows the last slash of `path`, or all of it where it has none.
pub open spec fn last_segment(path: Seq<char>) -> Seq<char>
    decreases path.len(),
{
    if path.len() == 0 || path.last() == '/' {
        seq![]
    } else {
        last_segment(path.drop_last()).push(path.last())
    }
}

proof fn lemma_last_segment_of_split(head: Seq<char>, tail: Seq<char>)
    requires
        head.len() == 0 || head.last() == '/',
        !tail.contains('/'),
    ensures
        last_segment(head + tail) == tail,
    decreases tail.len(),
{
    let path = head + tail;
    if tail.len() == 0 {
        assert(path == head);
    } else {
        assert(path.drop_last() == head + tail.drop_last());
        assert(path.last() == tail.last());
        assert(tail.contains(tail.last()));
        assert forall|c: char| tail.drop_last().contains(c) implies tail.contains(c) by {
            let i = choose|i: int| 0 <= i < tail.drop_last().len() && tail.drop_last()[i] == c;
            assert(tail[i] == c);
        }
        lemma_last_segment_of_split(head, tail.drop_last());
    }
}

/// The last segment of a path holds no slash, and what stands before it is
/// nothing or ends in a slash.
pub proof fn lemma_last_segment(path: Seq<char>)
    ensures
        !last_segment(path).contains('/'),
        last_segment(path).len() <= path.len(),
        path == path.take(path.len() - last_segment(path).len()) + last_segment(path),
        last_segment(path).len() < path.len() ==> path[path.len() - last_segment(path).len() - 1]
            == '/',
    decreases path.len(),
{
    let segment = last_segment(path);
    if path.len() == 0 || path.last() == '/' {
        assert(path.take(path.len() as int) == path);
    } else {
        let shorter = path.drop_last();
        lemma_last_segment(shorter);
        let before = last_segment(shorter);
        assert forall|i: int| 0 <= i < segment.len() implies #[trigger] segment[i] != '/' by {
            if i < before.len() {
                assert(before[i] == segment[i]);
                assert(before.contains(before[i]));
            }
        }
        let head = shorter.take(shorter.len() - before.len());
        assert(path == shorter.push(path.last()));
        assert(path.take(path.len() - segment.len()) == head);
        assert(path == head + segment);
    }
}

/// The file name of an object key: what follows its last slash.
pub fn file_name_of(path: &str) -> (r: String)
    ensures
        r@ == last_segment(path@),
{
    let source = chars_of(path);
    let mut start: usize = source.len();
    while start > 0 && source[start - 1] != '/'
        invariant
            start <= source@.len(),
            !source@.skip(start as int).contains('/'),
        decreases start,
    {
        proof {
            let shorter = source@.skip(start as int);
            let longer = source@.skip(start - 1);
            assert forall|i: int| 0 <= i < longer.len() implies #[trigger] longer[i] != '/' by {
                if i > 0 {
                    assert(shorter[i - 1] == longer[i]);
                }
            }
        }
        start = start - 1;
    }
    proof {
        let head = source@.take(start as int);
        assert(source@ == head + source@.skip(start as int));
        lemma_last_segment_of_split(head, source@.skip(start as int));
    }
    let mut out = String::new();
    let mut i: usize = start;
    while i < source.len()
        invariant
            start <= i <= source@.len(),
            out@ == source@.subrange(start as int, i as int),
        decreases source@.len() - i,
    {
        out.push(source[i]);
        assert(source@.subrange(start as int, i + 1) == source@.subrange(
            start as int,
            i as int,
        ).push(source@[i as int]));
        i = i + 1;
    }
    assert(source@.subrange(start as int, i as int) == source@.skip(start as int));
    out
}

} // verus!
