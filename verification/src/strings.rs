//! Searching and comparing texts.
use vstd::prelude::*;

verus! {

/// A character that Unicode counts as white space.
pub open spec fn white_space(c: char) -> bool {
    let code = c as u32;
    ||| 0x9 <= code <= 0xd
    ||| code == 0x20
    ||| code == 0x85
    ||| code == 0xa0
    ||| code == 0x1680
    ||| 0x2000 <= code <= 0x200a
    ||| code == 0x2028
    ||| code == 0x2029
    ||| code == 0x202f
    ||| code == 0x205f
    ||| code == 0x3000
}

/// A text with white space in it.
pub open spec fn has_white_space(value: Seq<char>) -> bool {
    exists|i: int| 0 <= i < value.len() && white_space(#[trigger] value[i])
}

/// Looks for white space.
pub fn find_white_space(value: &str) -> (found: bool)
    ensures
        found == has_white_space(value@),
{
    for c in iter: value.chars()
        invariant
            iter.seq() == value@,
            forall|i: int| 0 <= i < iter.index() ==> !white_space(#[trigger] value@[i]),
    {
        if is_white_space(c) {
            assert(white_space(value@[iter.index() as int]));
            return true;
        }
    }
    false
}

/// Recognises white space.
pub fn is_white_space(c: char) -> (found: bool)
    ensures
        found == white_space(c),
{
    let code: u32 = c as u32;
    (code >= 0x9 && code <= 0xd) || code == 0x20 || code == 0x85 || code == 0xa0 || code == 0x1680
        || (code >= 0x2000 && code <= 0x200a) || code == 0x2028 || code == 0x2029 || code == 0x202f
        || code == 0x205f || code == 0x3000
}

/// The characters of a text.
pub fn chars_of(value: &str) -> (chars: Vec<char>)
    ensures
        chars@ == value@,
{
    let mut chars: Vec<char> = Vec::new();
    for c in iter: value.chars()
        invariant
            iter.seq() == value@,
            chars@ == value@.take(iter.index() as int),
    {
        chars.push(c);
        assert(chars@ =~= value@.take(iter.index() + 1));
    }
    assert(chars@ =~= value@);
    chars
}

/// A text without the white space at its front.
pub open spec fn trimmed_front(value: Seq<char>) -> Seq<char>
    decreases value.len(),
{
    if value.len() > 0 && white_space(value[0]) {
        trimmed_front(value.skip(1))
    } else {
        value
    }
}

/// A text without the white space at its end.
pub open spec fn trimmed_back(value: Seq<char>) -> Seq<char>
    decreases value.len(),
{
    if value.len() > 0 && white_space(value.last()) {
        trimmed_back(value.drop_last())
    } else {
        value
    }
}

/// A text without the white space around it.
pub open spec fn trimmed(value: Seq<char>) -> Seq<char> {
    trimmed_back(trimmed_front(value))
}

/// Drops the white space around a text.
pub fn trim(value: &[char]) -> (out: Vec<char>)
    ensures
        out@ == trimmed(value@),
{
    let mut start: usize = 0;
    assert(value@.skip(0) =~= value@);
    while start < value.len() && is_white_space(value[start])
        invariant
            start <= value@.len(),
            trimmed_front(value@.skip(start as int)) == trimmed_front(value@),
        decreases value@.len() - start,
    {
        assert(value@.skip(start as int)[0] == value@[start as int]);
        assert(value@.skip(start as int).skip(1) =~= value@.skip(start + 1));
        start = start + 1;
    }
    let ghost front = value@.skip(start as int);
    assert(front.len() > 0 ==> front[0] == value@[start as int]);
    assert(front == trimmed_front(value@));
    let mut end: usize = value.len();
    assert(value@.subrange(start as int, end as int) =~= front);
    while end > start && is_white_space(value[end - 1])
        invariant
            start <= end <= value@.len(),
            trimmed_back(value@.subrange(start as int, end as int)) == trimmed(value@),
        decreases end,
    {
        let ghost rest = value@.subrange(start as int, end as int);
        assert(rest.last() == value@[end - 1]);
        assert(rest.drop_last() =~= value@.subrange(start as int, end - 1));
        end = end - 1;
    }
    let ghost rest = value@.subrange(start as int, end as int);
    assert(rest.len() > 0 ==> rest.last() == value@[end - 1]);
    assert(rest == trimmed(value@));
    let mut out: Vec<char> = Vec::new();
    let mut index: usize = start;
    while index < end
        invariant
            start <= index <= end <= value@.len(),
            out@ == value@.subrange(start as int, index as int),
        decreases end - index,
    {
        out.push(value[index]);
        assert(out@ =~= value@.subrange(start as int, index + 1));
        index = index + 1;
    }
    out
}

/// A byte with an upper-case letter made a lower-case one.
pub open spec fn lower(byte: u8) -> u8 {
    if 0x41 <= byte <= 0x5a {
        (byte + 0x20) as u8
    } else {
        byte
    }
}

/// A text with its ASCII letters in lower case.
pub open spec fn lowered(value: Seq<u8>) -> Seq<u8> {
    value.map_values(|byte: u8| lower(byte))
}

/// Makes a letter a lower-case one.
pub fn lower_byte(byte: u8) -> (out: u8)
    ensures
        out == lower(byte),
{
    if byte >= 0x41 && byte <= 0x5a {
        byte + 0x20
    } else {
        byte
    }
}

/// Compares two texts; the case of ASCII letters does not matter.
pub fn same_ignoring_case(a: &[u8], b: &[u8]) -> (same: bool)
    ensures
        same == (lowered(a@) == lowered(b@)),
{
    if a.len() != b.len() {
        assert(lowered(a@).len() != lowered(b@).len());
        return false;
    }
    let mut index: usize = 0;
    while index < a.len()
        invariant
            index <= a@.len(),
            a@.len() == b@.len(),
            forall|i: int| 0 <= i < index ==> lower(#[trigger] a@[i]) == lower(b@[i]),
        decreases a@.len() - index,
    {
        if lower_byte(a[index]) != lower_byte(b[index]) {
            assert(lowered(a@)[index as int] != lowered(b@)[index as int]);
            return false;
        }
        index = index + 1;
    }
    assert(lowered(a@) =~= lowered(b@));
    true
}

/// A text stands at a place in another.
pub open spec fn stands_at(value: Seq<u8>, part: Seq<u8>, at: int) -> bool {
    0 <= at && at + part.len() <= value.len() && value.subrange(at, at + part.len()) == part
}

/// A text stands somewhere in another.
pub open spec fn occurs_in(value: Seq<u8>, part: Seq<u8>) -> bool {
    exists|at: int| #[trigger] stands_at(value, part, at)
}

/// Looks for a text in another, whose ASCII letters are taken in lower case.
pub fn contains_ignoring_case(value: &[u8], part: &[u8]) -> (found: bool)
    ensures
        found == occurs_in(lowered(value@), part@),
{
    if part.len() > value.len() {
        return false;
    }
    let ghost low = lowered(value@);
    let last: usize = value.len() - part.len();
    let mut at: usize = 0;
    loop
        invariant
            low == lowered(value@),
            value@.len() == value.len(),
            at <= last,
            last + part@.len() == value@.len(),
            forall|i: int| 0 <= i < at ==> !#[trigger] stands_at(low, part@, i),
        decreases last - at,
    {
        let mut index: usize = 0;
        while index < part.len() && lower_byte(value[at + index]) == part[index]
            invariant
                low == lowered(value@),
                value@.len() == value.len(),
                at <= last,
                last + part@.len() == value@.len(),
                index <= part@.len(),
                forall|i: int| 0 <= i < index ==> low[at + i] == #[trigger] part@[i],
            decreases part@.len() - index,
        {
            index = index + 1;
        }
        if index == part.len() {
            assert(low.subrange(at as int, at + part@.len()) =~= part@);
            assert(stands_at(low, part@, at as int));
            return true;
        }
        assert(!stands_at(low, part@, at as int)) by {
            let piece = low.subrange(at as int, at + part@.len());
            assert(piece[index as int] != part@[index as int]);
        }
        if at == last {
            assert forall|i: int| !#[trigger] stands_at(low, part@, i) by {}
            return false;
        }
        at = at + 1;
    }
}

/// A letter from A to Z becomes the one from a to z, and every other byte stays.
pub proof fn letters_are_lowered(value: Seq<u8>, i: int)
    requires
        0 <= i < value.len(),
    ensures
        lowered(value).len() == value.len(),
        lowered(value)[i] == if 65 <= value[i] <= 90 {
            (value[i] + 32) as u8
        } else {
            value[i]
        },
        lowered(lowered(value)) == lowered(value),
{
    assert(lowered(lowered(value)) =~= lowered(value));
}

/// A text is found wherever it stands in another, and nowhere else.
pub proof fn texts_are_found_where_they_stand(
    before: Seq<u8>,
    part: Seq<u8>,
    after: Seq<u8>,
    value: Seq<u8>,
)
    ensures
        occurs_in(before + part + after, part),
        occurs_in(value, part) ==> exists|at: int|
            0 <= at <= value.len() - part.len() && value == value.take(at) + part
                + #[trigger] value.skip(at + part.len()),
        part.len() > value.len() ==> !occurs_in(value, part),
{
    let whole = before + part + after;
    let at = before.len() as int;
    assert(whole.subrange(at, at + part.len()) =~= part);
    assert(stands_at(whole, part, at));
    if occurs_in(value, part) {
        let at = choose|at: int| #[trigger] stands_at(value, part, at);
        assert(value =~= value.take(at) + part + value.skip(at + part.len()));
    }
}

/// A text is trimmed of white space in front of it and behind it, and of nothing else.
pub proof fn texts_are_trimmed(front: Seq<char>, value: Seq<char>, back: Seq<char>)
    requires
        forall|i: int| 0 <= i < front.len() ==> white_space(#[trigger] front[i]),
        forall|i: int| 0 <= i < back.len() ==> white_space(#[trigger] back[i]),
        value.len() > 0 ==> !white_space(value[0]) && !white_space(value.last()),
    ensures
        trimmed(front + value + back) == value,
{
    if value.len() == 0 {
        let whole = front + value + back;
        assert forall|i: int| 0 <= i < whole.len() implies white_space(#[trigger] whole[i]) by {
            if i < front.len() {
                assert(whole[i] == front[i]);
            } else {
                assert(whole[i] == back[i - front.len()]);
            }
        }
        lemma_front_is_trimmed(whole, Seq::empty());
        assert(whole + Seq::<char>::empty() =~= whole);
        assert(trimmed(whole) =~= value);
    } else {
        lemma_front_is_trimmed(front, value + back);
        assert(front + value + back =~= front + (value + back));
        lemma_back_is_trimmed(value, back);
    }
}

/// White space at the front is dropped.
proof fn lemma_front_is_trimmed(front: Seq<char>, rest: Seq<char>)
    requires
        forall|i: int| 0 <= i < front.len() ==> white_space(#[trigger] front[i]),
        rest.len() > 0 ==> !white_space(rest[0]),
    ensures
        trimmed_front(front + rest) == rest,
    decreases front.len(),
{
    if front.len() == 0 {
        assert(front + rest =~= rest);
    } else {
        assert(white_space(front[0]));
        lemma_front_is_trimmed(front.skip(1), rest);
        assert((front + rest).skip(1) =~= front.skip(1) + rest);
    }
}

/// White space at the end is dropped.
proof fn lemma_back_is_trimmed(value: Seq<char>, back: Seq<char>)
    requires
        forall|i: int| 0 <= i < back.len() ==> white_space(#[trigger] back[i]),
        value.len() > 0 ==> !white_space(value.last()),
    ensures
        trimmed_back(value + back) == value,
    decreases back.len(),
{
    if back.len() == 0 {
        assert(value + back =~= value);
    } else {
        assert(white_space(back[back.len() - 1]));
        lemma_back_is_trimmed(value, back.drop_last());
        assert((value + back).drop_last() =~= value + back.drop_last());
    }
}

} // verus!
