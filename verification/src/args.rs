//! Parsing of the textual argument forms: a `WIDTH,HEIGHT` pair of
//! decimal numbers, and a font size that is either the word
//! `AutoFit` or a fixed decimal size.

use vstd::prelude::*;

use crate::mask::FontSize;

verus! {

use vstd::string::StrSliceExecFns;

/// A decimal digit.
pub open spec fn is_digit(c: char) -> bool {
    '0' <= c <= '9'
}

/// Numeric value of a digit.
pub open spec fn digit_val(c: char) -> int {
    c as int - '0' as int
}

/// Every character is a decimal digit.
pub open spec fn all_digits(s: Seq<char>) -> bool {
    forall|i: int| 0 <= i < s.len() ==> is_digit(#[trigger] s[i])
}

/// The number a digit string denotes, most significant digit first.
pub open spec fn digits_value(s: Seq<char>) -> int
    decreases s.len(),
{
    if s.len() == 0 {
        0
    } else {
        digits_value(s.drop_last()) * 10 + digit_val(s.last())
    }
}

/// A parsable number: non-empty, all digits, and within the machine
/// range.
pub open spec fn valid_number(s: Seq<char>) -> bool {
    s.len() > 0 && all_digits(s) && digits_value(s) <= usize::MAX
}

/// A digit string denotes a non-negative number.
pub proof fn lemma_digits_value_nonneg(s: Seq<char>)
    requires
        all_digits(s),
    ensures
        digits_value(s) >= 0,
    decreases s.len(),
{
    if s.len() > 0 {
        assert(all_digits(s.drop_last()));
        lemma_digits_value_nonneg(s.drop_last());
    }
}

/// A prefix of a digit string denotes at most the whole string.
pub proof fn lemma_digits_value_take_le(s: Seq<char>, i: int)
    requires
        all_digits(s),
        0 <= i <= s.len(),
    ensures
        digits_value(s.take(i)) <= digits_value(s),
    decreases s.len() - i,
{
    if i < s.len() {
        lemma_digits_value_take_le(s, i + 1);
        assert(s.take(i + 1).drop_last() =~= s.take(i));
        assert(all_digits(s.take(i)));
        lemma_digits_value_nonneg(s.take(i));
        assert(digits_value(s.take(i + 1)) == digits_value(s.take(i)) * 10 + digit_val(
            s.take(i + 1).last(),
        ));
    } else {
        assert(s.take(i) =~= s);
    }
}

/// Parses a decimal number; nothing comes back for an empty string,
/// a non-digit character, or a value over the machine limit.
pub fn parse_usize(s: &str) -> (r: Option<usize>)
    ensures
        r is Some <==> valid_number(s@),
        r is Some ==> r->0 == digits_value(s@),
{
    let n = s.unicode_len();
    if n == 0 {
        return None;
    }
    let mut acc: usize = 0;
    let mut i: usize = 0;
    proof {
        assert(s@.take(0) =~= Seq::<char>::empty());
    }
    while i < n
        invariant
            n == s@.len(),
            i <= n,
            all_digits(s@.take(i as int)),
            acc == digits_value(s@.take(i as int)),
        decreases n - i,
    {
        let c = s.get_char(i);
        proof {
            assert(s@.take(i + 1).drop_last() =~= s@.take(i as int));
            assert(s@.take(i + 1).last() == s@[i as int]);
        }
        if c < '0' || c > '9' {
            proof {
                assert(!is_digit(s@[i as int]));
            }
            return None;
        }
        let d = (c as u32 - 48) as usize;
        proof {
            assert(d == digit_val(s@[i as int]));
            assert(all_digits(s@.take(i + 1)));
        }
        let next = match acc.checked_mul(10) {
            Some(m) => m.checked_add(d),
            None => None,
        };
        match next {
            Some(v) => {
                acc = v;
            },
            None => {
                proof {
                    if all_digits(s@) {
                        lemma_digits_value_take_le(s@, i + 1);
                    }
                }
                return None;
            },
        }
        i = i + 1;
    }
    proof {
        assert(s@.take(n as int) =~= s@);
    }
    Some(acc)
}

/// Number of commas in the string.
pub open spec fn comma_count(s: Seq<char>) -> int
    decreases s.len(),
{
    if s.len() == 0 {
        0
    } else {
        comma_count(s.drop_last()) + if s.last() == ',' {
            1int
        } else {
            0int
        }
    }
}

/// The position of the single comma of a string with exactly one.
pub open spec fn comma_pos(s: Seq<char>) -> int {
    choose|k: int| 0 <= k < s.len() && s[k] == ','
}

/// A comma in the string counts.
pub proof fn lemma_comma_counts(s: Seq<char>, i: int)
    requires
        0 <= i < s.len(),
        s[i] == ',',
    ensures
        comma_count(s) >= 1,
    decreases s.len(),
{
    if i < s.len() - 1 {
        lemma_comma_counts(s.drop_last(), i);
        lemma_comma_count_nonneg(s);
    } else {
        lemma_comma_count_nonneg(s.drop_last());
    }
}

/// A comma count is never negative.
pub proof fn lemma_comma_count_nonneg(s: Seq<char>)
    ensures
        comma_count(s) >= 0,
    decreases s.len(),
{
    if s.len() > 0 {
        lemma_comma_count_nonneg(s.drop_last());
    }
}

/// With at most one comma counted, two comma positions coincide.
pub proof fn lemma_comma_unique(s: Seq<char>, i: int, j: int)
    requires
        comma_count(s) <= 1,
        0 <= i < s.len(),
        0 <= j < s.len(),
        s[i] == ',',
        s[j] == ',',
    ensures
        i == j,
    decreases s.len(),
{
    if i != j {
        let lo = if i < j {
            i
        } else {
            j
        };
        let hi = if i < j {
            j
        } else {
            i
        };
        if hi == s.len() - 1 {
            lemma_comma_counts(s.drop_last(), lo);
        } else {
            lemma_comma_count_nonneg(s.drop_last());
            lemma_comma_unique(s.drop_last(), i, j);
        }
    }
}

/// Parses `WIDTH,HEIGHT`: exactly one comma, with a decimal number
/// on each side. The errors name the part that fails, the malformed
/// shape first.
pub fn parse_tuple(s: &str) -> (r: Result<(usize, usize), String>)
    ensures
        comma_count(s@) != 1 ==> r is Err && r->Err_0@ == "Size must be in the format WIDTH,HEIGHT"@,
        comma_count(s@) == 1 ==> {
            let w = s@.take(comma_pos(s@));
            let h = s@.skip(comma_pos(s@) + 1);
            &&& (valid_number(w) && valid_number(h)) ==> r is Ok && r->Ok_0 == (
                digits_value(w) as usize,
                digits_value(h) as usize,
            )
            &&& !valid_number(w) ==> r is Err && r->Err_0@ == "Invalid width"@
            &&& (valid_number(w) && !valid_number(h)) ==> r is Err && r->Err_0@
                == "Invalid height"@
        },
{
    let n = s.unicode_len();
    let mut commas: usize = 0;
    let mut pos: usize = 0;
    let mut i: usize = 0;
    proof {
        assert(s@.take(0) =~= Seq::<char>::empty());
    }
    while i < n
        invariant
            n == s@.len(),
            i <= n,
            commas <= i,
            commas == comma_count(s@.take(i as int)),
            commas > 0 ==> pos < i && s@[pos as int] == ',',
        decreases n - i,
    {
        proof {
            assert(s@.take(i + 1).drop_last() =~= s@.take(i as int));
            assert(s@.take(i + 1).last() == s@[i as int]);
        }
        let c = s.get_char(i);
        if c == ',' {
            if commas == 0 {
                pos = i;
            }
            commas = commas + 1;
        }
        i = i + 1;
    }
    proof {
        assert(s@.take(n as int) =~= s@);
    }
    if commas != 1 {
        return Err("Size must be in the format WIDTH,HEIGHT".to_owned());
    }
    proof {
        lemma_comma_counts(s@, pos as int);
        lemma_comma_unique(s@, pos as int, comma_pos(s@));
    }
    let left = s.substring_char(0, pos);
    let right = s.substring_char(pos + 1, n);
    proof {
        assert(left@ =~= s@.take(comma_pos(s@)));
        assert(right@ =~= s@.skip(comma_pos(s@) + 1));
    }
    let width = match parse_usize(left) {
        Some(v) => v,
        None => {
            return Err("Invalid width".to_owned());
        },
    };
    let height = match parse_usize(right) {
        Some(v) => v,
        None => {
            return Err("Invalid height".to_owned());
        },
    };
    Ok((width, height))
}

/// Parses a shape font size: the word `AutoFit`, or a fixed decimal
/// size.
pub fn parse_shape_size(s: &str) -> (r: Result<FontSize, String>)
    ensures
        s@ == "AutoFit"@ ==> r == Result::<FontSize, String>::Ok(FontSize::AutoFit),
        s@ != "AutoFit"@ && valid_number(s@) ==> r == Result::<FontSize, String>::Ok(
            FontSize::Fixed(digits_value(s@) as usize),
        ),
        s@ != "AutoFit"@ && !valid_number(s@) ==> r is Err && r->Err_0@ == "Invalid font size"@,
{
    proof {
        reveal_strlit("AutoFit");
    }
    let n = s.unicode_len();
    let mut is_auto = n == 7;
    if is_auto {
        is_auto = s.get_char(0) == 'A' && s.get_char(1) == 'u' && s.get_char(2) == 't'
            && s.get_char(3) == 'o' && s.get_char(4) == 'F' && s.get_char(5) == 'i' && s.get_char(
            6,
        ) == 't';
    }
    proof {
        if is_auto {
            assert(s@ =~= "AutoFit"@);
        } else {
            assert(s@ != "AutoFit"@);
        }
    }
    if is_auto {
        return Ok(FontSize::AutoFit);
    }
    match parse_usize(s) {
        Some(v) => Ok(FontSize::Fixed(v)),
        None => Err("Invalid font size".to_owned()),
    }
}

} // verus!
