//! Text helpers on top of what is known of strings.

use vstd::prelude::*;

verus! {

/// `String::push` appends one character to the end of the text.
pub assume_specification[ String::push ](text: &mut String, character: char)
    ensures
        final(text)@ == old(text)@.push(character),
;

/// A text without its trailing characters out of a set.
pub open spec fn trimmed_end(text: Seq<char>, unwanted: Set<char>) -> Seq<char>
    decreases text.len(),
{
    if text.len() > 0 && unwanted.contains(text.last()) {
        trimmed_end(text.drop_last(), unwanted)
    } else {
        text
    }
}

/// Padding with trimmed characters disappears again.
pub proof fn lemma_trim_padding(text: Seq<char>, padding: Seq<char>, unwanted: Set<char>)
    requires
        forall|i: int| 0 <= i < padding.len() ==> unwanted.contains(#[trigger] padding[i]),
    ensures
        trimmed_end(text + padding, unwanted) == trimmed_end(text, unwanted),
    decreases padding.len(),
{
    if padding.len() > 0 {
        assert((text + padding).drop_last() =~= text + padding.drop_last());
        assert((text + padding).last() == padding.last());
        lemma_trim_padding(text, padding.drop_last(), unwanted);
    } else {
        assert(text + padding =~= text);
    }
}

/// A character is the number it is cast to.
pub proof fn lemma_char_range(character: char)
    ensures
        0 <= character as int <= 0x10_ffff,
        character as u32 == character as int,
        (character as u32) as char == character,
{
}

pub(crate) fn chars_of(text: &str) -> (characters: Vec<char>)
    ensures
        characters@ == text@,
{
    let mut characters: Vec<char> = Vec::new();
    for character in iterator: text.chars()
        invariant
            characters@ == iterator.seq().take(iterator.index() as int),
            iterator.seq() == text@,
    {
        characters.push(character);
    }
    characters
}

pub(crate) fn text_from(characters: &Vec<char>, length: usize) -> (text: String)
    requires
        length <= characters@.len(),
    ensures
        text@ == characters@.take(length as int),
{
    let mut text = String::new();
    let mut index: usize = 0;
    assert(text@ =~= characters@.take(0));
    while index < length
        invariant
            index <= length <= characters@.len(),
            text@ == characters@.take(index as int),
        decreases length - index,
    {
        text.push(characters[index]);
        index += 1;
        assert(text@ =~= characters@.take(index as int));
    }
    text
}

/// A character with the Unicode property White_Space.
pub open spec fn white_space(character: char) -> bool {
    let code = character as u32;
    ||| 0x09 <= code <= 0x0d
    ||| code == 0x20
    ||| code == 0x85
    ||| code == 0xa0
    ||| code == 0x1680
    ||| 0x2000 <= code <= 0x200a
    ||| code == 0x2028
    ||| code == 0x2029
    ||| code == 0x202f
    ||| code == 0x205f
    ||| code == 0x3000
}

pub(crate) fn is_white_space(character: char) -> (result: bool)
    ensures
        result == white_space(character),
{
    let code: u32 = character as u32;
    (code >= 0x09 && code <= 0x0d) || code == 0x20 || code == 0x85 || code == 0xa0 || code == 0x1680
        || (code >= 0x2000 && code <= 0x200a) || code == 0x2028 || code == 0x2029 || code == 0x202f
        || code == 0x205f || code == 0x3000
}

/// A text without leading and trailing white space.
pub open spec fn stripped(text: Seq<char>) -> Seq<char>
    decreases text.len(),
{
    if text.len() > 0 && white_space(text.last()) {
        stripped(text.drop_last())
    } else if text.len() > 0 && white_space(text.first()) {
        stripped(text.drop_first())
    } else {
        text
    }
}

pub(crate) fn strip(text: &str) -> (result: String)
    ensures
        result@ == stripped(text@),
{
    let characters = chars_of(text);
    let mut end: usize = characters.len();
    assert(characters@.subrange(0, end as int) =~= characters@);
    while end > 0 && is_white_space(characters[end - 1])
        invariant
            end <= characters@.len(),
            stripped(characters@.subrange(0, end as int)) == stripped(characters@),
        decreases end,
    {
        assert(characters@.subrange(0, end as int).drop_last() =~= characters@.subrange(
            0,
            end - 1,
        ));
        end -= 1;
    }
    let mut start: usize = 0;
    while start < end && is_white_space(characters[start])
        invariant
            start <= end <= characters@.len(),
            end > 0 ==> !white_space(characters@[end - 1]),
            stripped(characters@.subrange(start as int, end as int)) == stripped(characters@),
        decreases end - start,
    {
        let ghost part = characters@.subrange(start as int, end as int);
        assert(part.last() == characters@[end - 1]);
        assert(part.drop_first() =~= characters@.subrange(start + 1, end as int));
        start += 1;
    }
    let ghost part = characters@.subrange(start as int, end as int);
    assert(stripped(part) == part) by {
        if start < end {
            assert(part.last() == characters@[end - 1]);
            assert(part.first() == characters@[start as int]);
        }
    }
    let mut middle: Vec<char> = Vec::new();
    let mut index: usize = start;
    while index < end
        invariant
            start <= index <= end <= characters@.len(),
            middle@ == characters@.subrange(start as int, index as int),
        decreases end - index,
    {
        middle.push(characters[index]);
        index += 1;
        assert(middle@ =~= characters@.subrange(start as int, index as int));
    }
    assert(middle@.take(middle@.len() as int) =~= middle@);
    text_from(&middle, middle.len())
}

/// The bytes of a text in UTF-8.
pub open spec fn text_bytes(text: Seq<char>) -> Seq<u8> {
    vstd::utf8::encode_utf8(text)
}

/// A text of white space alone.
pub open spec fn blank(text: Seq<char>) -> bool {
    forall|i: int| 0 <= i < text.len() ==> white_space(#[trigger] text[i])
}

pub(crate) fn is_blank(text: &str) -> (result: bool)
    ensures
        result == blank(text@),
{
    let characters = chars_of(text);
    let mut index: usize = 0;
    while index < characters.len()
        invariant
            index <= characters@.len(),
            characters@ == text@,
            forall|i: int| 0 <= i < index ==> white_space(#[trigger] text@[i]),
        decreases characters@.len() - index,
    {
        if !is_white_space(characters[index]) {
            assert(!white_space(text@[index as int]));
            return false;
        }
        index += 1;
    }
    true
}

pub(crate) fn byte_length(text: &str) -> (length: usize)
    ensures
        length == text_bytes(text@).len(),
{
    text.as_bytes().len()
}

pub(crate) fn same_text(left: &str, right: &str) -> (same: bool)
    ensures
        same == (left@ == right@),
{
    let first = chars_of(left);
    let second = chars_of(right);
    if first.len() != second.len() {
        return false;
    }
    let mut index: usize = 0;
    while index < first.len()
        invariant
            index <= first@.len(),
            first@ == left@,
            second@ == right@,
            first@.len() == second@.len(),
            forall|i: int| 0 <= i < index ==> first@[i] == second@[i],
        decreases first@.len() - index,
    {
        if first[index] != second[index] {
            assert(left@[index as int] != right@[index as int]);
            return false;
        }
        index += 1;
    }
    assert(first@ =~= second@);
    true
}

/// What is left of a text without its outer white space is one piece of it:
/// all that stands before and behind the piece is white space, and the piece
/// neither begins nor ends with any.
pub proof fn lemma_stripped(text: Seq<char>) -> (place: (int, int))
    ensures
        0 <= place.0 <= place.1 <= text.len(),
        stripped(text) == text.subrange(place.0, place.1),
        forall|i: int| 0 <= i < place.0 ==> white_space(#[trigger] text[i]),
        forall|i: int| place.1 <= i < text.len() ==> white_space(#[trigger] text[i]),
        stripped(text).len() > 0 ==> !white_space(stripped(text).first()) && !white_space(
            stripped(text).last(),
        ),
        blank(text) <==> stripped(text).len() == 0,
    decreases text.len(),
{
    let place: (int, int);
    if text.len() > 0 && white_space(text.last()) {
        let inner = lemma_stripped(text.drop_last());
        place = inner;
        assert(text.subrange(inner.0, inner.1) =~= text.drop_last().subrange(inner.0, inner.1));
        assert forall|i: int| 0 <= i < place.0 implies white_space(#[trigger] text[i]) by {
            assert(text.drop_last()[i] == text[i]);
        }
        assert forall|i: int| place.1 <= i < text.len() implies white_space(#[trigger] text[i]) by {
            if i < text.len() - 1 {
                assert(text.drop_last()[i] == text[i]);
            }
        }
    } else if text.len() > 0 && white_space(text.first()) {
        let inner = lemma_stripped(text.drop_first());
        place = (inner.0 + 1, inner.1 + 1);
        assert(text.subrange(place.0, place.1) =~= text.drop_first().subrange(inner.0, inner.1));
        assert forall|i: int| 0 <= i < place.0 implies white_space(#[trigger] text[i]) by {
            if i > 0 {
                assert(text.drop_first()[i - 1] == text[i]);
            }
        }
        assert forall|i: int| place.1 <= i < text.len() implies white_space(#[trigger] text[i]) by {
            assert(text.drop_first()[i - 1] == text[i]);
        }
    } else {
        place = (0, text.len() as int);
        assert(text.subrange(0, text.len() as int) =~= text);
    }
    if stripped(text).len() > 0 {
        assert(stripped(text).first() == text[place.0]);
        assert(!blank(text));
    }
    place
}

} // verus!
