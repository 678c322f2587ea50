//! Verified construction of the fixed-width strings that the box renderer is
//! made of: repeated fill characters and centered titles.

use vstd::prelude::*;

verus! {

/// A sequence of `count` copies of `character`.
pub open spec fn repeat_char(character: char, count: int) -> Seq<char> {
    Seq::new(count as nat, |i: int| character)
}

/// A `text` centered in a field of `width` spaces: the slack is split in two,
/// with the odd space going to the right.
pub open spec fn spec_center(text: Seq<char>, width: int) -> Seq<char> {
    let slack = width - text.len();
    repeat_char(' ', slack / 2) + text + repeat_char(' ', slack - slack / 2)
}

/// Relies on `String::push`: appends the given character to the end of the
/// string.
#[verifier::external_body]
pub(crate) fn push_char(text: &mut String, character: char)
    ensures
        final(text)@ == old(text)@.push(character),
{
    text.push(character);
}

/// A string of `count` copies of `character`.
pub fn make_repeated_char_string(character: char, count: usize) -> (result: String)
    ensures
        result@ == repeat_char(character, count as int),
{
    let mut result = String::new();
    let mut i: usize = 0;
    while i < count
        invariant
            i <= count,
            result@.len() == i,
            forall|k: int| 0 <= k < i ==> result@[k] == character,
        decreases count - i,
    {
        push_char(&mut result, character);
        i += 1;
    }
    proof {
        assert(result@ =~= repeat_char(character, count as int));
    }
    result
}

/// Centers `text` in a field of `width` spaces.
pub fn add_padding_to_center_string(text: &str, width: usize) -> (result: String)
    requires
        text@.len() <= width,
    ensures
        result@ == spec_center(text@, width as int),
        result@.len() == width,
{
    let text_length: usize = text.unicode_len();
    let slack: usize = width - text_length;
    let left: usize = slack / 2;
    let right: usize = slack - left;

    let mut result = make_repeated_char_string(' ', left);
    result.append(text);
    let right_padding = make_repeated_char_string(' ', right);
    result.append(right_padding.as_str());

    proof {
        assert(result@ =~= spec_center(text@, width as int));
    }
    result
}

} // verus!
