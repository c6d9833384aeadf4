//! Conversion between column numbers and the letters that name a column:
//! `1` is `A`, `26` is `Z`, `27` is `AA`, and so on in bijective base 26.

use vstd::prelude::*;
use crate::error::OfficeError;
use crate::text::chars_of;

verus! {

/// Whether `c` is an ASCII letter, of either case.
pub open spec fn is_letter(c: char) -> bool {
    65 <= c as u32 <= 90 || 97 <= c as u32 <= 122
}

/// Whether `c` is an upper-case ASCII letter.
pub open spec fn is_upper_letter(c: char) -> bool {
    65 <= c as u32 <= 90
}

/// The place of a letter in the alphabet, from 1 for `A` or `a` to 26.
pub open spec fn letter_value(c: char) -> nat
    recommends
        is_letter(c),
{
    if c as u32 >= 97 {
        (c as u32 - 96) as nat
    } else {
        (c as u32 - 64) as nat
    }
}

/// The upper-case letter at place `k` of the alphabet, counted from 0.
pub open spec fn upper_letter(k: nat) -> char
    recommends
        k < 26,
{
    ((65 + k) as u8) as char
}

/// How many letters stand at the start of `s`.
pub open spec fn letters_prefix_len(s: Seq<char>) -> nat
    decreases s.len(),
{
    if s.len() == 0 || !is_letter(s[0]) {
        0
    } else {
        1 + letters_prefix_len(s.drop_first())
    }
}

/// The number that a string of letters names.
pub open spec fn column_number(letters: Seq<char>) -> nat
    decreases letters.len(),
{
    if letters.len() == 0 {
        0
    } else {
        26 * column_number(letters.drop_last()) + letter_value(letters.last())
    }
}

/// The letters that name column `n`; nothing for 0.
pub open spec fn column_letters(n: nat) -> Seq<char>
    decreases n,
{
    if n == 0 {
        Seq::empty()
    } else {
        column_letters(((n - 1) / 26) as nat).push(upper_letter(((n - 1) % 26) as nat))
    }
}

/// The column that a cell key such as `AB12` names: the number of its
/// leading letters, if it has any.
pub open spec fn column_of_key(key: Seq<char>) -> Option<nat> {
    let letters = key.take(letters_prefix_len(key) as int);
    if letters.len() == 0 {
        None
    } else {
        Some(column_number(letters))
    }
}

/// The leading letters of `s` are exactly its first `i` characters when those
/// are letters and the next one, if there is one, is not.
pub proof fn lemma_letters_prefix(s: Seq<char>, i: int)
    requires
        0 <= i <= s.len(),
        forall|k: int| 0 <= k < i ==> is_letter(#[trigger] s[k]),
        i == s.len() || !is_letter(s[i]),
    ensures
        letters_prefix_len(s) == i,
    decreases i,
{
    if i > 0 {
        let t = s.drop_first();
        assert(is_letter(s[0]));
        assert forall|k: int| 0 <= k < i - 1 implies is_letter(#[trigger] t[k]) by {
            assert(t[k] == s[k + 1]);
        }
        lemma_letters_prefix(t, i - 1);
    }
}

/// A longer string of letters names a column at least as far out as its
/// prefix does.
pub proof fn lemma_column_number_monotonic(s: Seq<char>, i: int)
    requires
        0 <= i <= s.len(),
    ensures
        column_number(s.take(i)) <= column_number(s),
    decreases s.len() - i,
{
    if i == s.len() {
        assert(s.take(i) == s);
    } else {
        let t = s.drop_last();
        lemma_column_number_monotonic(t, i);
        assert(t.take(i) == s.take(i));
    }
}

/// The letters of a column are upper-case letters, at least one of them for
/// a column from 1 on.
pub proof fn lemma_column_letters_are_letters(n: nat)
    ensures
        forall|k: int| 0 <= k < column_letters(n).len() ==> is_upper_letter(
            #[trigger] column_letters(n)[k],
        ),
        n >= 1 ==> column_letters(n).len() >= 1,
    decreases n,
{
    if n > 0 {
        let m = ((n - 1) / 26) as nat;
        lemma_column_letters_are_letters(m);
        let p = column_letters(m);
        let s = column_letters(n);
        assert forall|k: int| 0 <= k < s.len() implies is_upper_letter(#[trigger] s[k]) by {
            if k < p.len() {
                assert(s[k] == p[k]);
            }
        }
    }
}

/// The number named by the letters of column `n` is `n`.
pub proof fn lemma_column_number_of_letters(n: nat)
    ensures
        column_number(column_letters(n)) == n,
    decreases n,
{
    if n > 0 {
        let m = ((n - 1) / 26) as nat;
        lemma_column_number_of_letters(m);
        let s = column_letters(n);
        assert(s.drop_last() == column_letters(m));
        assert(s.last() == upper_letter(((n - 1) % 26) as nat));
    }
}

/// Naming a column and reading the name back gives the column: for every
/// `n` from 1 on, the key of `n` names `n`.
pub proof fn lemma_column_key_round_trip(n: nat)
    requires
        n >= 1,
    ensures
        column_of_key(column_letters(n)) == Some(n),
{
    let s = column_letters(n);
    lemma_column_letters_are_letters(n);
    lemma_column_number_of_letters(n);
    lemma_letters_prefix(s, s.len() as int);
    assert(s.take(s.len() as int) == s);
}

/// Reading a name and naming the column again gives the name: the letters
/// of the column that a non-empty upper-case name stands for are that name.
/// With the law above, columns from 1 on and upper-case names correspond
/// one to one.
pub proof fn lemma_column_letters_of_number(s: Seq<char>)
    requires
        forall|k: int| 0 <= k < s.len() ==> is_upper_letter(#[trigger] s[k]),
    ensures
        column_letters(column_number(s)) == s,
        s.len() >= 1 ==> column_number(s) >= 1,
    decreases s.len(),
{
    if s.len() > 0 {
        let t = s.drop_last();
        assert forall|k: int| 0 <= k < t.len() implies is_upper_letter(#[trigger] t[k]) by {
            assert(t[k] == s[k]);
        }
        lemma_column_letters_of_number(t);
        let c = s.last();
        assert(is_upper_letter(s[s.len() - 1]));
        let v = letter_value(c);
        let n = column_number(s);
        assert(n == 26 * column_number(t) + v);
        assert(1 <= v <= 26);
        assert((n - 1) / 26 == column_number(t) as int);
        assert((n - 1) % 26 == v - 1);
        assert(upper_letter((v - 1) as nat) == c) by {
            let u = upper_letter((v - 1) as nat);
            assert(u as u32 == c as u32);
            vstd::utf8::char_u32_cast(u, u as u32);
            vstd::utf8::char_u32_cast(c, c as u32);
        }
        assert(column_letters(n) == column_letters(column_number(t)).push(c));
        assert(t.push(c) == s);
    }
}

/// Appends the letters of column `n` to `out`.
fn push_column_letters(n: usize, out: &mut String)
    requires
        n >= 1,
    ensures
        final(out)@ == old(out)@ + column_letters(n as nat),
    decreases n,
{
    let m: usize = n - 1;
    let upper: usize = m / 26;
    if upper > 0 {
        push_column_letters(upper, out);
    }
    let k: u8 = (m % 26) as u8;
    let c: char = (65u8 + k) as char;
    out.push(c);
    proof {
        assert(column_letters(0) == Seq::<char>::empty());
        assert(c == upper_letter(((n - 1) % 26) as nat));
        assert(final(out)@ == old(out)@ + column_letters(n as nat));
    }
}

/// Conversions between the numbers and the letters of columns.
pub struct ConverterUtil;

impl ConverterUtil {
    /// The number of the column that a cell key names, counted from 1. The
    /// key's leading letters are read, in either case; what follows them is
    /// ignored. A key without a leading letter, or one whose column does not
    /// fit the machine's word, is refused.
    pub fn get_column_int(cell_key: &str) -> (res: Result<usize, OfficeError>)
        ensures
            res == match column_of_key(cell_key@) {
                Some(n) => if n <= usize::MAX {
                    Ok(n as usize)
                } else {
                    Err(OfficeError::Programmer)
                },
                None => Err(OfficeError::Programmer),
            },
    {
        let v = chars_of(cell_key);
        let mut end: usize = 0;
        while end < v.len() && Self::is_letter_char(v[end])
            invariant
                end <= v.len(),
                forall|k: int| 0 <= k < end ==> is_letter(#[trigger] v@[k]),
            decreases v.len() - end,
        {
            end += 1;
        }
        proof {
            lemma_letters_prefix(v@, end as int);
        }
        if end == 0 {
            return Err(OfficeError::Programmer);
        }
        let ghost letters = v@.take(end as int);
        assert(column_of_key(cell_key@) == Some(column_number(letters)));
        let mut index: usize = 0;
        let mut i: usize = 0;
        while i < end
            invariant
                i <= end <= v.len(),
                letters == v@.take(end as int),
                column_of_key(cell_key@) == Some(column_number(letters)),
                forall|k: int| 0 <= k < end ==> is_letter(#[trigger] v@[k]),
                index == column_number(letters.take(i as int)),
            decreases end - i,
        {
            let c = v[i];
            let code = c as u32;
            let value: usize = if code >= 97 {
                (code - 96) as usize
            } else {
                (code - 64) as usize
            };
            proof {
                let t = letters.take(i + 1);
                assert(is_letter(v@[i as int]));
                assert(t.drop_last() == letters.take(i as int));
                assert(t.last() == c);
                assert(value == letter_value(c));
                assert(column_number(t) == 26 * index + value);
                lemma_column_number_monotonic(letters, i + 1);
            }
            if index > (usize::MAX - value) / 26 {
                return Err(OfficeError::Programmer);
            }
            index = index * 26 + value;
            i += 1;
        }
        assert(letters.take(end as int) == letters);
        Ok(index)
    }

    /// The letters that name column `cell_id`, counted from 1. Column 0 does
    /// not exist and is refused.
    pub fn get_column_key(cell_id: usize) -> (res: Result<String, OfficeError>)
        ensures
            cell_id == 0 ==> res == Err::<String, OfficeError>(OfficeError::Programmer),
            cell_id >= 1 ==> (res matches Ok(key) && key@ == column_letters(cell_id as nat)),
    {
        if cell_id == 0 {
            return Err(OfficeError::Programmer);
        }
        let mut column_name = String::new();
        push_column_letters(cell_id, &mut column_name);
        assert(Seq::<char>::empty() + column_letters(cell_id as nat) == column_letters(
            cell_id as nat,
        ));
        Ok(column_name)
    }

    fn is_letter_char(c: char) -> (b: bool)
        ensures
            b == is_letter(c),
    {
        let code = c as u32;
        (65 <= code && code <= 90) || (97 <= code && code <= 122)
    }
}

} // verus!
