//! What the command line decides: the crop setting and the labels of the
//! progress bars.

use vstd::prelude::*;
use vstd::string::*;
use crate::{Error, ErrorView};

verus! {

/// The part of the terminal, in cells, that is kept when rendering.
#[derive(Debug, Clone, Copy, PartialEq, Eq, Structural)]
pub struct CropSettings {
    pub top: u16,
    pub left: u16,
    pub width: u16,
    pub height: u16,
}

/// The fields of a crop setting that were given so far.
#[derive(Debug, Clone, Copy, PartialEq, Eq, Structural)]
pub struct CropFields {
    pub top: Option<u16>,
    pub left: Option<u16>,
    pub width: Option<u16>,
    pub height: Option<u16>,
}

/// The label of a progress bar.
#[derive(Debug, Clone, Copy, PartialEq, Eq, Structural)]
pub enum BarLabel {
    /// The stage is at work: the bar shows the name of the stage.
    Working,
    /// The stage has finished without having moved.
    Done,
    /// The stage has not begun.
    Waiting,
}

/// The label of a progress bar that stands at `position` and is or is not
/// finished: a bar that has moved shows its stage at work, and one that has
/// not is done where it is finished and waiting where it is not.
pub fn bar_label(position: u64, finished: bool) -> (label: BarLabel)
    ensures
        label == (if position > 0 {
            BarLabel::Working
        } else if finished {
            BarLabel::Done
        } else {
            BarLabel::Waiting
        }),
{
    if position > 0 {
        BarLabel::Working
    } else if finished {
        BarLabel::Done
    } else {
        BarLabel::Waiting
    }
}

/// The position of the first byte `b` in `s`, or the length of `s` where
/// there is none.
pub open spec fn find_byte(s: Seq<u8>, b: u8) -> int
    decreases s.len(),
{
    if s.len() == 0 {
        0
    } else if s[0] == b {
        0
    } else {
        1 + find_byte(s.drop_first(), b)
    }
}

/// Whether `b` is a decimal digit.
pub open spec fn is_digit(b: u8) -> bool {
    48 <= b <= 57
}

/// The number that the decimal digits `s` spell.
pub open spec fn digits_value(s: Seq<u8>) -> int
    decreases s.len(),
{
    if s.len() == 0 {
        0
    } else {
        digits_value(s.drop_last()) * 10 + (s.last() - 48)
    }
}

/// The number of 16 bits that `s` spells: decimal digits, at least one,
/// after an optional plus sign. `None` for anything else and for a number
/// that does not fit.
pub open spec fn parse_u16(s: Seq<u8>) -> Option<u16> {
    let digits = without_sign(s);
    if digits.len() > 0 && all_digits(digits) && digits_value(digits) <= u16::MAX {
        Some(digits_value(digits) as u16)
    } else {
        None
    }
}

/// `s` without a plus sign at its start.
pub open spec fn without_sign(s: Seq<u8>) -> Seq<u8> {
    if s.len() > 0 && s[0] == 43 {
        s.drop_first()
    } else {
        s
    }
}

/// Whether all bytes of `s` are decimal digits.
pub open spec fn all_digits(s: Seq<u8>) -> bool {
    forall|i: int| 0 <= i < s.len() ==> is_digit(#[trigger] s[i])
}

/// The fields after the field named `key` was given as `value`. A name
/// other than `top`, `left`, `width` and `height` changes nothing.
pub open spec fn set_field(fields: CropFields, key: Seq<u8>, value: u16) -> CropFields {
    if key == seq![116u8, 111u8, 112u8] {
        CropFields { top: Some(value), ..fields }
    } else if key == seq![108u8, 101u8, 102u8, 116u8] {
        CropFields { left: Some(value), ..fields }
    } else if key == seq![119u8, 105u8, 100u8, 116u8, 104u8] {
        CropFields { width: Some(value), ..fields }
    } else if key == seq![104u8, 101u8, 105u8, 103u8, 104u8, 116u8] {
        CropFields { height: Some(value), ..fields }
    } else {
        fields
    }
}

/// The fields after one item of the setting. An item without `=` changes
/// nothing. In any other item the name stands before the first `=` and the
/// value between the first `=` and the second, or the end: `None` where the
/// value is no number of 16 bits.
pub open spec fn crop_pair(pair: Seq<u8>, fields: CropFields) -> Option<CropFields> {
    let eq = find_byte(pair, 61);
    if eq >= pair.len() {
        Some(fields)
    } else {
        let rest = pair.skip(eq + 1);
        match parse_u16(rest.take(find_byte(rest, 61))) {
            None => None,
            Some(value) => Some(set_field(fields, pair.take(eq), value)),
        }
    }
}

/// The fields after all items of the setting `s`, which are separated by
/// commas and read from left to right; `None` where an item has a value
/// that is no number of 16 bits.
pub open spec fn crop_pairs(s: Seq<u8>, fields: CropFields) -> Option<CropFields>
    decreases s.len(),
{
    let end = find_byte(s, 44);
    match crop_pair(s.take(end), fields) {
        None => None,
        Some(next) => if 0 <= end < s.len() {
            crop_pairs(s.skip(end + 1), next)
        } else {
            Some(next)
        },
    }
}

/// The crop setting that the fields make up: all four must be given.
pub open spec fn crop_of(fields: CropFields) -> Option<CropSettings> {
    match (fields.top, fields.left, fields.width, fields.height) {
        (Some(top), Some(left), Some(width), Some(height)) => Some(
            CropSettings { top, left, width, height },
        ),
        _ => None,
    }
}

/// No field given.
pub open spec fn no_fields() -> CropFields {
    CropFields { top: None, left: None, width: None, height: None }
}

/// The message for a crop value that is no number.
pub open spec fn crop_value_message() -> Seq<char> {
    "Could not parse crop value as int"@
}

/// `find_byte` finds the first occurrence.
pub proof fn lemma_find_byte(s: Seq<u8>, b: u8)
    ensures
        0 <= find_byte(s, b) <= s.len(),
        find_byte(s, b) < s.len() ==> s[find_byte(s, b)] == b,
        forall|i: int| 0 <= i < find_byte(s, b) ==> #[trigger] s[i] != b,
    decreases s.len(),
{
    if s.len() > 0 && s[0] != b {
        let rest = s.drop_first();
        lemma_find_byte(rest, b);
        assert forall|i: int| 0 <= i < find_byte(s, b) implies #[trigger] s[i] != b by {
            if i > 0 {
                assert(s[i] == rest[i - 1]);
            }
        }
    }
}

/// A position with the byte, before which the byte does not occur, is the
/// position that `find_byte` gives.
proof fn lemma_find_byte_is(s: Seq<u8>, b: u8, at: int)
    requires
        0 <= at <= s.len(),
        at < s.len() ==> s[at] == b,
        forall|i: int| 0 <= i < at ==> #[trigger] s[i] != b,
    ensures
        find_byte(s, b) == at,
{
    lemma_find_byte(s, b);
    let found = find_byte(s, b);
    if found < at {
        assert(s[found] != b);
    } else if found > at {
        assert(s[at] != b);
    }
}

/// The position of the first byte `b` in `s` between `from` and `to`, or
/// `to` where there is none.
fn find(s: &[u8], from: usize, to: usize, b: u8) -> (at: usize)
    requires
        from <= to <= s@.len(),
    ensures
        from <= at <= to,
        at - from == find_byte(s@.subrange(from as int, to as int), b),
{
    let mut at = from;
    while at < to && s[at] != b
        invariant
            from <= at <= to <= s@.len(),
            forall|i: int| from <= i < at ==> #[trigger] s@[i] != b,
        decreases to - at,
    {
        at += 1;
    }
    proof {
        let part = s@.subrange(from as int, to as int);
        assert forall|i: int| 0 <= i < at - from implies #[trigger] part[i] != b by {
            assert(part[i] == s@[from + i]);
        }
        lemma_find_byte_is(part, b, at - from);
    }
    at
}

/// Reads a number of 16 bits from the bytes of `s` between `from` and `to`.
fn parse_decimal(s: &[u8], from: usize, to: usize) -> (value: Option<u16>)
    requires
        from <= to <= s@.len(),
    ensures
        value == parse_u16(s@.subrange(from as int, to as int)),
{
    let ghost whole = s@.subrange(from as int, to as int);
    let start = if from < to && s[from] == 43 {
        from + 1
    } else {
        from
    };
    let ghost digits = s@.subrange(start as int, to as int);
    proof {
        if from < to {
            assert(whole[0] == s@[from as int]);
        }
        if start > from {
            assert(whole.drop_first() =~= digits);
        } else {
            assert(whole =~= digits);
        }
    }
    if start == to {
        return None;
    }
    let mut value: u32 = 0;
    let mut i = start;
    while i < to
        invariant
            start <= i <= to <= s@.len(),
            from <= to,
            whole == s@.subrange(from as int, to as int),
            digits == without_sign(whole),
            digits == s@.subrange(start as int, to as int),
            forall|k: int| 0 <= k < i - start ==> is_digit(#[trigger] digits[k]),
            0 <= digits_value(digits.take(i - start)),
            value == (if digits_value(digits.take(i - start)) > 65535 {
                65536
            } else {
                digits_value(digits.take(i - start))
            }),
        decreases to - i,
    {
        let b = s[i];
        proof {
            assert(digits[i - start] == b);
        }
        if b < 48 || b > 57 {
            proof {
                assert(!is_digit(digits[i - start]));
            }
            return None;
        }
        proof {
            let upto = digits.take(i - start + 1);
            assert(upto.drop_last() =~= digits.take(i - start));
            assert(upto.last() == b);
        }
        value = value * 10 + (b - 48) as u32;
        if value > 65535 {
            value = 65536;
        }
        i += 1;
    }
    proof {
        assert(digits.take(to - start) =~= digits);
    }
    if value > 65535 {
        None
    } else {
        Some(value as u16)
    }
}

/// Records the value of the field whose name stands in `s` between `from`
/// and `to`.
fn assign(fields: CropFields, s: &[u8], from: usize, to: usize, value: u16) -> (next: CropFields)
    requires
        from <= to <= s@.len(),
    ensures
        next == set_field(fields, s@.subrange(from as int, to as int), value),
{
    let ghost key = s@.subrange(from as int, to as int);
    let len = to - from;
    proof {
        assert forall|i: int| 0 <= i < len implies key[i] == s@[from + i] by {}
    }
    if len == 3 && s[from] == 116 && s[from + 1] == 111 && s[from + 2] == 112 {
        proof {
            assert(key =~= seq![116u8, 111u8, 112u8]);
        }
        CropFields { top: Some(value), ..fields }
    } else if len == 4 && s[from] == 108 && s[from + 1] == 101 && s[from + 2] == 102 && s[from
        + 3] == 116 {
        proof {
            assert(key =~= seq![108u8, 101u8, 102u8, 116u8]);
            assert(key.len() != 3);
        }
        CropFields { left: Some(value), ..fields }
    } else if len == 5 && s[from] == 119 && s[from + 1] == 105 && s[from + 2] == 100 && s[from
        + 3] == 116 && s[from + 4] == 104 {
        proof {
            assert(key =~= seq![119u8, 105u8, 100u8, 116u8, 104u8]);
        }
        CropFields { width: Some(value), ..fields }
    } else if len == 6 && s[from] == 104 && s[from + 1] == 101 && s[from + 2] == 105 && s[from
        + 3] == 103 && s[from + 4] == 104 && s[from + 5] == 116 {
        proof {
            assert(key =~= seq![104u8, 101u8, 105u8, 103u8, 104u8, 116u8]);
        }
        CropFields { height: Some(value), ..fields }
    } else {
        proof {
            let top = seq![116u8, 111u8, 112u8];
            let left = seq![108u8, 101u8, 102u8, 116u8];
            let width = seq![119u8, 105u8, 100u8, 116u8, 104u8];
            let height = seq![104u8, 101u8, 105u8, 103u8, 104u8, 116u8];
            if key == top {
                assert(key.len() == 3 && key[0] == 116 && key[1] == 111 && key[2] == 112);
            }
            if key == left {
                assert(key.len() == 4 && key[0] == 108 && key[1] == 101 && key[2] == 102
                    && key[3] == 116);
            }
            if key == width {
                assert(key.len() == 5 && key[0] == 119 && key[1] == 105 && key[2] == 100
                    && key[3] == 116 && key[4] == 104);
            }
            if key == height {
                assert(key.len() == 6 && key[0] == 104 && key[1] == 101 && key[2] == 105
                    && key[3] == 103 && key[4] == 104 && key[5] == 116);
            }
        }
        fields
    }
}

/// Reads one item of the setting from the bytes of `s` between `from` and
/// `to`.
fn parse_pair(fields: CropFields, s: &[u8], from: usize, to: usize) -> (next: Option<CropFields>)
    requires
        from <= to <= s@.len(),
    ensures
        next == crop_pair(s@.subrange(from as int, to as int), fields),
{
    let ghost pair = s@.subrange(from as int, to as int);
    let eq = find(s, from, to, 61);
    if eq >= to {
        return Some(fields);
    }
    let end = find(s, eq + 1, to, 61);
    proof {
        let rest = pair.skip(eq - from + 1);
        assert(rest =~= s@.subrange(eq + 1, to as int));
        assert(rest.take(end - eq - 1) =~= s@.subrange(eq + 1, end as int));
        assert(pair.take(eq - from) =~= s@.subrange(from as int, eq as int));
    }
    match parse_decimal(s, eq + 1, end) {
        None => None,
        Some(value) => Some(assign(fields, s, from, eq, value)),
    }
}

/// Reads a crop setting of the form
/// `top=[int],left=[int],width=[int],height=[int]`.
///
/// The items may come in any order, and a later item overrides an earlier
/// one of the same name. Items without `=` and items with other names are
/// passed over. The setting is `None` unless all four fields are given. A
/// value that is no number of 16 bits is an error.
pub fn parse_crop(crop: &[u8]) -> (r: Result<Option<CropSettings>, Error>)
    ensures
        match r {
            Ok(settings) => crop_pairs(crop@, no_fields()) is Some && settings == crop_of(
                crop_pairs(crop@, no_fields()).unwrap(),
            ),
            Err(e) => crop_pairs(crop@, no_fields()) is None && e@ == ErrorView::Generic(
                crop_value_message(),
            ),
        },
{
    let mut fields = CropFields { top: None, left: None, width: None, height: None };
    let mut from: usize = 0;
    proof {
        assert(crop@.skip(0) =~= crop@);
    }
    loop
        invariant
            from <= crop@.len(),
            crop_pairs(crop@, no_fields()) == crop_pairs(crop@.skip(from as int), fields),
        decreases crop@.len() - from,
    {
        let ghost rest = crop@.skip(from as int);
        let end = find(crop, from, crop.len(), 44);
        proof {
            assert(crop@.subrange(from as int, crop@.len() as int) =~= rest);
            assert(rest.take(end - from) =~= crop@.subrange(from as int, end as int));
            if end < crop@.len() {
                assert(rest.skip(end - from + 1) =~= crop@.skip(end + 1));
            }
        }
        match parse_pair(fields, crop, from, end) {
            None => {
                return Err(Error::Generic(String::from_str("Could not parse crop value as int")));
            },
            Some(next) => {
                fields = next;
            },
        }
        if end >= crop.len() {
            return match (fields.top, fields.left, fields.width, fields.height) {
                (Some(top), Some(left), Some(width), Some(height)) => Ok(
                    Some(CropSettings { top, left, width, height }),
                ),
                _ => Ok(None),
            };
        }
        from = end + 1;
    }
}

} // verus!
