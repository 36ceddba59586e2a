//! Reading the values out of a submitted form in which one field name may
//! occur any number of times, as a group of checkboxes submits it.

use vstd::prelude::*;
use vstd::string::StrSliceExecFns;
use vstd::utf8::{decode_utf8, valid_utf8};
use crate::error::{is_error, AppError, ErrorKind};
use crate::grapes::texts;
use crate::text::chars_of;

verus! {

/// The value of a hexadecimal digit, or `None` for any other byte.
pub open spec fn hex_digit(b: u8) -> Option<int> {
    if 0x30 <= b <= 0x39 {
        Some(b - 0x30)
    } else if 0x41 <= b <= 0x46 {
        Some(b - 0x41 + 10)
    } else if 0x61 <= b <= 0x66 {
        Some(b - 0x61 + 10)
    } else {
        None
    }
}

/// Whether a percent sign followed by two hexadecimal digits stands at the
/// start of `bytes`.
pub open spec fn escape_at_start(bytes: Seq<u8>) -> bool {
    bytes.len() >= 3 && bytes[0] == 0x25 && hex_digit(bytes[1]) is Some && hex_digit(bytes[2]) is Some
}

/// The bytes with every percent sign that is followed by two hexadecimal
/// digits replaced, together with the digits, by the byte that the digits
/// spell. Any other byte, a lone percent sign too, stands for itself.
pub open spec fn percent_decoded(bytes: Seq<u8>) -> Seq<u8>
    decreases bytes.len(),
{
    if bytes.len() == 0 {
        bytes
    } else if escape_at_start(bytes) {
        seq![(hex_digit(bytes[1])->0 * 16 + hex_digit(bytes[2])->0) as u8] + percent_decoded(
            bytes.skip(3),
        )
    } else {
        seq![bytes[0]] + percent_decoded(bytes.skip(1))
    }
}

/// Calls `percent_encoding::percent_decode` and `decode_utf8` on what it
/// returns.
///
/// Trusted: the text is the percent-decoded bytes read as UTF-8, and there
/// is none exactly where those bytes are not well-formed UTF-8.
#[verifier::external_body]
fn percent_decode_utf8(form: &[u8]) -> (text: Option<String>)
    ensures
        match text {
            Some(s) => valid_utf8(percent_decoded(form@)) && s@ == decode_utf8(percent_decoded(form@)),
            None => !valid_utf8(percent_decoded(form@)),
        },
{
    match percent_encoding::percent_decode(form).decode_utf8() {
        Ok(s) => Some(s.into_owned()),
        Err(_) => None,
    }
}

/// The pieces into which the separator `sep` divides a text. A text with
/// `n` separators has `n + 1` pieces, some of which may be empty.
pub open spec fn split_on(s: Seq<char>, sep: char) -> Seq<Seq<char>>
    decreases s.len(),
{
    if s.len() == 0 {
        seq![s]
    } else {
        let before = split_on(s.drop_last(), sep);
        if s.last() == sep {
            before.push(Seq::<char>::empty())
        } else {
            before.update(before.len() - 1, before.last().push(s.last()))
        }
    }
}

/// The value of one `name=value` piece of a form: what stands between the
/// first equals sign and the second, or the end. A piece without an equals
/// sign has no value.
pub open spec fn form_value(piece: Seq<char>) -> Option<Seq<char>> {
    let fields = split_on(piece, '=');
    if fields.len() >= 2 {
        Some(fields[1])
    } else {
        None
    }
}

/// The values of all pieces of a form, whatever their names, in order.
pub open spec fn form_values(text: Seq<char>) -> Seq<Seq<char>> {
    split_on(text, '&').filter_map(|piece: Seq<char>| form_value(piece))
}

/// The parts of `chars` that the given ranges cover, in order.
pub open spec fn range_texts(chars: Seq<char>, ranges: Seq<(usize, usize)>) -> Seq<Seq<char>> {
    ranges.map_values(|r: (usize, usize)| chars.subrange(r.0 as int, r.1 as int))
}

/// Divides the part of `chars` between `from` and `to` at each separator,
/// and returns the ranges of the pieces.
fn split_ranges(chars: &Vec<char>, from: usize, to: usize, sep: char) -> (ranges: Vec<(usize, usize)>)
    requires
        from <= to <= chars@.len(),
    ensures
        range_texts(chars@, ranges@) == split_on(chars@.subrange(from as int, to as int), sep),
        forall|k: int| 0 <= k < ranges@.len() ==> from <= (#[trigger] ranges@[k]).0 <= ranges@[k].1 <= to,
{
    let mut done: Vec<(usize, usize)> = Vec::new();
    let mut start: usize = from;
    let mut i: usize = from;
    proof {
        assert(range_texts(chars@, done@).push(chars@.subrange(start as int, i as int)) =~= split_on(
            chars@.subrange(from as int, i as int),
            sep,
        ));
    }
    while i < to
        invariant
            from <= start <= i <= to <= chars@.len(),
            range_texts(chars@, done@).push(chars@.subrange(start as int, i as int)) == split_on(
                chars@.subrange(from as int, i as int),
                sep,
            ),
            forall|k: int| 0 <= k < done@.len() ==> from <= (#[trigger] done@[k]).0 <= done@[k].1 <= to,
        decreases to - i,
    {
        let ghost so_far = chars@.subrange(from as int, i as int);
        let ghost next = chars@.subrange(from as int, i + 1);
        let ghost before = range_texts(chars@, done@);
        proof {
            assert(next.drop_last() =~= so_far);
            assert(next.last() == chars@[i as int]);
        }
        if chars[i] == sep {
            done.push((start, i));
            proof {
                assert(range_texts(chars@, done@) =~= before.push(chars@.subrange(start as int, i as int)));
                assert(chars@.subrange(i + 1, i + 1) =~= Seq::<char>::empty());
            }
            start = i + 1;
        } else {
            proof {
                let pieces = before.push(chars@.subrange(start as int, i as int));
                assert(chars@.subrange(start as int, i + 1) =~= chars@.subrange(start as int, i as int).push(
                    chars@[i as int],
                ));
                assert(pieces.update(pieces.len() - 1, pieces.last().push(chars@[i as int])) =~= before.push(
                    chars@.subrange(start as int, i + 1),
                ));
            }
        }
        i = i + 1;
    }
    let ghost before = range_texts(chars@, done@);
    done.push((start, to));
    proof {
        assert(range_texts(chars@, done@) =~= before.push(chars@.subrange(start as int, to as int)));
    }
    done
}

/// The values of all pieces of a form text: for `grapes=Barbera&grapes=Gamay`
/// the two names. The text is taken as it is: it was percent-decoded before.
pub fn selected_values(text: &str) -> (values: Vec<String>)
    ensures
        texts(values@) == form_values(text@),
{
    let chars = chars_of(text);
    let n = chars.len();
    let pieces = split_ranges(&chars, 0, n, '&');
    let mut values: Vec<String> = Vec::new();
    let count = pieces.len();
    let mut k: usize = 0;
    let ghost all = split_on(text@, '&');
    proof {
        assert(chars@.subrange(0, n as int) =~= chars@);
        assert(all.take(0) =~= Seq::<Seq<char>>::empty());
        assert(texts(values@) =~= Seq::<Seq<char>>::empty());
    }
    while k < count
        invariant
            k <= count,
            count == pieces@.len(),
            chars@ == text@,
            n == chars@.len(),
            all == split_on(text@, '&'),
            range_texts(chars@, pieces@) == all,
            forall|j: int| 0 <= j < pieces@.len() ==> 0 <= (#[trigger] pieces@[j]).0 <= pieces@[j].1 <= n,
            texts(values@) == all.take(k as int).filter_map(|piece: Seq<char>| form_value(piece)),
        decreases count - k,
    {
        let (a, b) = pieces[k];
        let fields = split_ranges(&chars, a, b, '=');
        let ghost piece = chars@.subrange(a as int, b as int);
        let ghost before = texts(values@);
        proof {
            assert(all[k as int] == range_texts(chars@, pieces@)[k as int]);
            assert(all.take(k + 1).drop_last() =~= all.take(k as int));
            assert(all.take(k + 1).last() == piece);
            assert(range_texts(chars@, fields@).len() == fields@.len());
        }
        if fields.len() >= 2 {
            let (c, d) = fields[1];
            let value = text.substring_char(c, d).to_owned();
            proof {
                assert(range_texts(chars@, fields@)[1] == chars@.subrange(c as int, d as int));
                assert(form_value(piece) == Some(value@));
            }
            values.push(value);
            proof {
                assert(texts(values@) =~= before + seq![value@]);
            }
        }
        k = k + 1;
    }
    proof {
        assert(all.take(count as int) =~= all);
    }
    values
}

/// The description of the error for a form that is not text.
pub open spec fn msg_form_not_text() -> Seq<char> {
    "form is not valid UTF-8"@
}

/// What is made of a decoded form: the values of its pieces, or an
/// invalid-input error where the form was no text.
pub fn values_of_decoded(decoded: Option<String>) -> (r: Result<Vec<String>, AppError>)
    ensures
        match decoded {
            Some(text) => r matches Ok(values) && texts(values@) == form_values(text@),
            None => r matches Err(e) && is_error(e, ErrorKind::InvalidInput, msg_form_not_text()),
        },
{
    match decoded {
        Some(text) => Ok(selected_values(text.as_str())),
        None => Err(AppError::bad_request("form is not valid UTF-8")),
    }
}

/// Reads the values out of the raw body of a form: the body is
/// percent-decoded, read as UTF-8 and divided at `&` and `=`.
pub fn parse_selected(form: &[u8]) -> (r: Result<Vec<String>, AppError>)
    ensures
        valid_utf8(percent_decoded(form@)) ==> (r matches Ok(values) && texts(values@) == form_values(
            decode_utf8(percent_decoded(form@)),
        )),
        !valid_utf8(percent_decoded(form@)) ==> (r matches Err(e) && is_error(
            e,
            ErrorKind::InvalidInput,
            msg_form_not_text(),
        )),
{
    values_of_decoded(percent_decode_utf8(form))
}

} // verus!
