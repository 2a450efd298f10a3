//! Cell addresses: column letters and row digits, as in `B7`.

use crate::text::chars_of;
use crate::text::parse_decimal;
use crate::text::is_digit;
use crate::text::parse_unsigned;
use crate::text::without_plus;
use vstd::prelude::*;

verus! {

/// The position of a cell, both parts counted from 1.
#[derive(Debug, Clone, Copy, PartialEq, Eq, Structural)]
pub struct CellRef {
    pub col: u32,
    pub row: u32,
}

impl CellRef {
    /// Columns and rows are counted from 1.
    pub open spec fn wf(self) -> bool {
        self.col >= 1 && self.row >= 1
    }
}

pub open spec fn is_upper(c: char) -> bool {
    'A' <= c && c <= 'Z'
}

pub open spec fn is_lower(c: char) -> bool {
    'a' <= c && c <= 'z'
}

pub open spec fn is_letter(c: char) -> bool {
    is_upper(c) || is_lower(c)
}

/// The upper-case form of an ASCII letter; any other character is kept.
pub open spec fn to_upper(c: char) -> char {
    if is_lower(c) {
        ((c as u8 - 32) as u8) as char
    } else {
        c
    }
}

pub fn upper(c: char) -> (u: char)
    ensures
        u == to_upper(c),
{
    if 'a' <= c && c <= 'z' {
        ((c as u8) - 32) as char
    } else {
        c
    }
}

/// The number that the column letters `letters` write: base 26 with the digits
/// `A` to `Z` for 1 to 26.
pub open spec fn column_number(letters: Seq<char>) -> nat
    decreases letters.len(),
{
    if letters.len() == 0 {
        0
    } else {
        column_number(letters.drop_last()) * 26 + ((letters.last() as u32 - 'A' as u32) as nat
            + 1)
    }
}

/// How many upper-case letters lead `s`.
pub open spec fn leading_uppercase(s: Seq<char>) -> nat
    decreases s.len(),
{
    if s.len() > 0 && is_upper(s[0]) {
        1 + leading_uppercase(s.drop_first())
    } else {
        0
    }
}

pub open spec fn all_upper(s: Seq<char>) -> bool {
    forall|i: int| 0 <= i < s.len() ==> is_upper(#[trigger] s[i])
}

/// A column number is no smaller than the number that a prefix of its letters writes.
pub proof fn lemma_column_prefix(s: Seq<char>, n: int)
    requires
        0 <= n <= s.len(),
    ensures
        column_number(s.take(n)) <= column_number(s),
    decreases s.len() - n,
{
    if n == s.len() {
        assert(s.take(n) =~= s);
    } else {
        lemma_column_prefix(s, n + 1);
        assert(s.take(n + 1).drop_last() =~= s.take(n));
    }
}

/// Upper-case letters, one or more, write a column from 1 on.
pub proof fn lemma_column_positive(s: Seq<char>)
    requires
        s.len() > 0,
    ensures
        column_number(s) >= 1,
{
}

/// The column that the first `count` letters of `letters` write, if a `u32` holds it.
pub fn column_value(letters: &Vec<char>, count: usize) -> (value: Option<u32>)
    requires
        count <= letters.len(),
        all_upper(letters@.take(count as int)),
    ensures
        match value {
            Some(v) => v == column_number(letters@.take(count as int)),
            None => column_number(letters@.take(count as int)) > u32::MAX,
        },
{
    let ghost all = letters@.take(count as int);
    let mut value: u64 = 0;
    let mut i: usize = 0;
    while i < count
        invariant
            i <= count <= letters.len(),
            all == letters@.take(count as int),
            all_upper(all),
            value == column_number(all.take(i as int)),
            value <= u32::MAX,
        decreases count - i,
    {
        let c: char = letters[i];
        assert(all[i as int] == c);
        assert(all.take(i + 1).drop_last() =~= all.take(i as int));
        assert(all.take(i + 1).last() == c);
        proof {
            lemma_column_prefix(all, i + 1);
        }
        let next: u64 = value * 26 + ((c as u32 - 'A' as u32) as u64 + 1);
        if next > 0xffff_ffff {
            return None;
        }
        value = next;
        i = i + 1;
    }
    assert(all.take(i as int) =~= all);
    Some(value as u32)
}

/// The number of the column that the upper-case letters leading `col` write:
/// `A` is 1, `Z` is 26, `AA` is 27. Reading stops at the first character that
/// is no upper-case letter.
pub fn col_to_index(col: &str) -> (index: u32)
    requires
        column_number(col@.take(leading_uppercase(col@) as int)) <= u32::MAX,
    ensures
        index == column_number(col@.take(leading_uppercase(col@) as int)),
{
    let chars = chars_of(col);
    let n: usize = chars.len();
    let mut count: usize = 0;
    assert(chars@.skip(0) =~= chars@);
    while count < n && 'A' <= chars[count] && chars[count] <= 'Z'
        invariant
            count <= n == chars.len(),
            leading_uppercase(chars@) == count + leading_uppercase(chars@.skip(count as int)),
            all_upper(chars@.take(count as int)),
        decreases n - count,
    {
        assert(chars@.skip(count as int).drop_first() =~= chars@.skip(count + 1));
        assert forall|i: int| 0 <= i < count + 1 implies is_upper(
            #[trigger] chars@.take(count + 1)[i],
        ) by {
            if i < count {
                assert(chars@.take(count as int)[i] == chars@.take(count + 1)[i]);
            }
        }
        count = count + 1;
    }
    match column_value(&chars, count) {
        Some(v) => v,
        None => 0,
    }
}

/// The letters of the address `s`, in order and in upper case.
pub open spec fn column_letters(s: Seq<char>) -> Seq<char>
    decreases s.len(),
{
    if s.len() == 0 {
        Seq::empty()
    } else if is_letter(s.last()) {
        column_letters(s.drop_last()).push(to_upper(s.last()))
    } else {
        column_letters(s.drop_last())
    }
}

/// What the address `s` holds besides letters, in order.
pub open spec fn row_text(s: Seq<char>) -> Seq<char>
    decreases s.len(),
{
    if s.len() == 0 {
        Seq::empty()
    } else if is_letter(s.last()) {
        row_text(s.drop_last())
    } else {
        row_text(s.drop_last()).push(s.last())
    }
}

/// The cell that the address `s` names: its letters give the column and the rest,
/// read as a decimal number, the row. There is none where `s` has no letter or
/// nothing else, where the rest is no number from 1 on, or where the column or
/// the row is beyond `u32`.
pub open spec fn cell_ref_of(s: Seq<char>) -> Option<CellRef> {
    let letters = column_letters(s);
    let digits = row_text(s);
    if letters.len() == 0 || digits.len() == 0 || column_number(letters) > u32::MAX {
        None
    } else {
        match parse_unsigned(digits, u32::MAX as nat) {
            Some(row) => if row == 0 {
                None
            } else {
                Some(CellRef { col: column_number(letters) as u32, row: row as u32 })
            },
            None => None,
        }
    }
}

/// Reads a cell address such as `B7` or `aa10`.
pub fn parse_cell_ref(s: &str) -> (cell: Option<CellRef>)
    ensures
        cell == cell_ref_of(s@),
        cell is Some ==> cell.unwrap().wf(),
{
    let chars = chars_of(s);
    let mut letters: Vec<char> = Vec::new();
    let mut digits: Vec<char> = Vec::new();
    let mut i: usize = 0;
    while i < chars.len()
        invariant
            i <= chars.len(),
            letters@ == column_letters(chars@.take(i as int)),
            digits@ == row_text(chars@.take(i as int)),
            all_upper(letters@),
        decreases chars.len() - i,
    {
        let c: char = chars[i];
        assert(chars@.take(i + 1).drop_last() =~= chars@.take(i as int));
        assert(chars@.take(i + 1).last() == c);
        if ('A' <= c && c <= 'Z') || ('a' <= c && c <= 'z') {
            letters.push(upper(c));
        } else {
            digits.push(c);
        }
        i = i + 1;
    }
    assert(chars@.take(i as int) =~= chars@);
    if letters.len() == 0 || digits.len() == 0 {
        return None;
    }
    assert(letters@.take(letters.len() as int) =~= letters@);
    assert(digits@.subrange(0, digits.len() as int) =~= digits@);
    let col = column_value(&letters, letters.len());
    let row = parse_decimal(&digits, 0, digits.len(), 0xffff_ffff);
    match (col, row) {
        (Some(col), Some(row)) => {
            if row == 0 {
                None
            } else {
                proof {
                    lemma_column_positive(letters@);
                }
                Some(CellRef { col, row: row as u32 })
            }
        },
        _ => None,
    }
}

/// What `row_text` keeps of an address, the address holds.
pub proof fn lemma_row_text_within(s: Seq<char>, i: int)
    requires
        0 <= i < row_text(s).len(),
    ensures
        s.contains(row_text(s)[i]),
    decreases s.len(),
{
    if s.len() > 0 {
        let front = s.drop_last();
        if is_letter(s.last()) || i < row_text(front).len() {
            lemma_row_text_within(front, i);
            let j = choose|j: int| 0 <= j < front.len() && front[j] == row_text(front)[i];
            assert(s[j] == row_text(s)[i]);
        } else {
            assert(s[s.len() - 1] == row_text(s)[i]);
        }
    }
}

/// An address without a letter names no cell.
pub proof fn lemma_address_without_letters(s: Seq<char>)
    requires
        forall|i: int| 0 <= i < s.len() ==> !is_letter(#[trigger] s[i]),
    ensures
        cell_ref_of(s) is None,
{
    lemma_no_letters(s);
}

proof fn lemma_no_letters(s: Seq<char>)
    requires
        forall|i: int| 0 <= i < s.len() ==> !is_letter(#[trigger] s[i]),
    ensures
        column_letters(s).len() == 0,
    decreases s.len(),
{
    if s.len() > 0 {
        assert(!is_letter(s[s.len() - 1]));
        assert forall|i: int| 0 <= i < s.drop_last().len() implies !is_letter(
            #[trigger] s.drop_last()[i],
        ) by {
            assert(s.drop_last()[i] == s[i]);
        }
        lemma_no_letters(s.drop_last());
    }
}

/// An address without a digit names no cell.
pub proof fn lemma_address_without_digits(s: Seq<char>)
    requires
        forall|i: int| 0 <= i < s.len() ==> !is_digit(#[trigger] s[i]),
    ensures
        cell_ref_of(s) is None,
{
    let digits = without_plus(row_text(s));
    if digits.len() > 0 {
        let at: int = if digits.len() == row_text(s).len() {
            0
        } else {
            1
        };
        assert(digits[0] == row_text(s)[at]);
        lemma_row_text_within(s, at);
        assert(!is_digit(digits[0]));
    }
}

} // verus!
