//! Root-archive classification.
//!
//! A path names a root archive when its file name either matches
//! `part<digits>.rar` with the digits reading as exactly one, or carries no
//! such part number and simply ends in `.rar`.

use vstd::prelude::*;
use crate::paths::file_name_spec;
use crate::paths::file_name_of;

verus! {

/// A decimal digit, as the part-number pattern understands it.
pub open spec fn is_digit(c: char) -> bool {
    c == '0' || c == '1' || c == '2' || c == '3' || c == '4' || c == '5' || c == '6'
        || c == '7' || c == '8' || c == '9'
}

/// Value of one decimal digit; pinned only on digits.
pub open spec fn digit_val(c: char) -> nat {
    if c == '0' {
        0
    } else if c == '1' {
        1
    } else if c == '2' {
        2
    } else if c == '3' {
        3
    } else if c == '4' {
        4
    } else if c == '5' {
        5
    } else if c == '6' {
        6
    } else if c == '7' {
        7
    } else if c == '8' {
        8
    } else {
        9
    }
}

pub open spec fn all_digits(s: Seq<char>) -> bool {
    forall|i: int| 0 <= i < s.len() ==> is_digit(#[trigger] s[i])
}

/// Numeric value of a decimal digit string (most significant digit first).
pub open spec fn digits_value(s: Seq<char>) -> nat
    decreases s.len(),
{
    if s.len() == 0 {
        0
    } else {
        digits_value(s.drop_last()) * 10 + digit_val(s.last())
    }
}

/// Start of the maximal digit run ending just before position `end`.
pub open spec fn digit_run_start(s: Seq<char>, end: int) -> int
    decreases end,
{
    if end <= 0 {
        0
    } else if is_digit(s[end - 1]) {
        digit_run_start(s, end - 1)
    } else {
        end
    }
}

pub open spec fn ends_with(s: Seq<char>, suffix: Seq<char>) -> bool {
    s.len() >= suffix.len() && s.subrange(s.len() - suffix.len(), s.len() as int)
        == suffix
}

pub open spec fn dot_rar() -> Seq<char> {
    seq!['.', 'r', 'a', 'r']
}

pub open spec fn part_lit() -> Seq<char> {
    seq!['p', 'a', 'r', 't']
}

/// The name ends in `part<digits>.rar`: a non-empty decimal run immediately
/// before the literal `.rar` suffix, immediately preceded by the literal
/// `part`.
pub open spec fn part_pattern_match(name: Seq<char>) -> bool {
    let run = digit_run_start(name, name.len() - 4);
    &&& ends_with(name, dot_rar())
    &&& run < name.len() - 4
    &&& run >= 4
    &&& name.subrange(run - 4, run) == part_lit()
}

/// The digits captured by the part pattern.
pub open spec fn part_digits(name: Seq<char>) -> Seq<char> {
    name.subrange(digit_run_start(name, name.len() - 4), name.len() - 4)
}

/// Whether a bare file name is a root archive: a part-numbered name is a root
/// exactly when its number reads as one; any other name is a root exactly
/// when it ends in `.rar`.
pub open spec fn name_is_root_spec(name: Seq<char>) -> bool {
    if part_pattern_match(name) {
        digits_value(part_digits(name)) == 1
    } else {
        ends_with(name, dot_rar())
    }
}

/// Whether a path names a root archive, judged by its file name.
pub open spec fn is_root_rar_spec(path: Seq<char>) -> bool {
    name_is_root_spec(file_name_spec(path))
}

/// `digit_run_start` is the unique index such that everything from it up to
/// `end` is a digit and the character just before it, if any, is not.
pub proof fn lemma_digit_run_start_char(s: Seq<char>, end: int, k: int)
    requires
        0 <= k <= end <= s.len(),
        forall|j: int| k <= j < end ==> is_digit(#[trigger] s[j]),
        k == 0 || !is_digit(s[k - 1]),
    ensures
        digit_run_start(s, end) == k,
    decreases end,
{
    if k < end {
        lemma_digit_run_start_char(s, end - 1, k);
    }
}

/// A digit string reads as zero exactly when it is all zeros.
pub proof fn lemma_digits_value_zero(s: Seq<char>)
    requires
        all_digits(s),
    ensures
        (digits_value(s) == 0) <==> (forall|i: int| 0 <= i < s.len() ==> s[i] == '0'),
    decreases s.len(),
{
    if s.len() > 0 {
        let d = s.drop_last();
        assert(forall|i: int| 0 <= i < d.len() ==> d[i] == s[i]);
        assert(all_digits(d));
        lemma_digits_value_zero(d);
        let last = s.last();
        assert(last == s[s.len() - 1]);
        assert(is_digit(last));
        assert(digits_value(s) == digits_value(d) * 10 + digit_val(last));
        if digits_value(s) == 0 {
            assert(digits_value(d) == 0);
            assert(digit_val(last) == 0);
            assert(last == '0');
            assert forall|i: int| 0 <= i < s.len() implies s[i] == '0' by {
                if i < s.len() - 1 {
                    assert(s[i] == d[i]);
                }
            }
        } else {
            if forall|i: int| 0 <= i < s.len() ==> s[i] == '0' {
                assert(forall|i: int| 0 <= i < d.len() ==> d[i] == '0');
                assert(digits_value(d) == 0);
                assert(s[s.len() - 1] == '0');
                assert(digits_value(s) == 0);
            }
        }
    }
}

/// A non-empty digit string reads as one exactly when it is zeros followed by
/// a final `1`.
pub proof fn lemma_digits_value_one(s: Seq<char>)
    requires
        all_digits(s),
        s.len() > 0,
    ensures
        (digits_value(s) == 1) <==> (s.last() == '1' && forall|i: int|
            0 <= i < s.len() - 1 ==> s[i] == '0'),
{
    assert(all_digits(s.drop_last())) by {
        assert(forall|i: int| 0 <= i < s.len() - 1 ==> s.drop_last()[i] == s[i]);
    }
    lemma_digits_value_zero(s.drop_last());
    assert(is_digit(s.last()));
    assert(forall|i: int| 0 <= i < s.len() - 1 ==> s.drop_last()[i] == s[i]);
}

/// A file name of the form `<prefix>part<digits>.rar` is a root archive
/// exactly when its digits read as one; in particular a lone `part01.rar`
/// reads as one while `part0.rar` and `part2.rar` do not.
pub proof fn lemma_part_name_classification(prefix: Seq<char>, digits: Seq<char>)
    requires
        digits.len() > 0,
        all_digits(digits),
    ensures
        name_is_root_spec(prefix + part_lit() + digits + dot_rar()) <==> (digits_value(
            digits,
        ) == 1),
{
    let s = prefix + part_lit() + digits + dot_rar();
    let pl = prefix.len() as int;
    let dl = digits.len() as int;
    let ln = s.len() as int;
    assert(ln == pl + 4 + dl + 4);
    assert forall|i: int| pl + 4 <= i < ln - 4 implies is_digit(#[trigger] s[i]) by {
        assert(s[i] == digits[i - (pl + 4)]);
    }
    assert(s[pl + 3] == part_lit()[3]);
    assert(!is_digit('t'));
    lemma_digit_run_start_char(s, ln - 4, pl + 4);
    assert(s.subrange(ln - 4, ln) =~= dot_rar()) by {
        assert(forall|i: int| 0 <= i < 4 ==> #[trigger] s.subrange(ln - 4, ln)[i] == s[ln - 4
            + i]);
    }
    assert(ends_with(s, dot_rar()));
    assert(s.subrange(pl, pl + 4) =~= part_lit()) by {
        assert(forall|i: int| 0 <= i < 4 ==> #[trigger] s.subrange(pl, pl + 4)[i] == s[pl + i]);
    }
    assert(part_pattern_match(s));
    assert(part_digits(s) =~= digits) by {
        assert(forall|i: int| 0 <= i < dl ==> #[trigger] part_digits(s)[i] == s[pl + 4 + i]);
    }
}

fn char_is_digit(c: char) -> (r: bool)
    ensures
        r == is_digit(c),
{
    c == '0' || c == '1' || c == '2' || c == '3' || c == '4' || c == '5' || c == '6'
        || c == '7' || c == '8' || c == '9'
}

/// Whether `path` names a root archive: the first physical piece of a
/// possibly multi-part archive, the right starting point for listing and
/// extraction.
pub fn is_root_rar_file(path: &str) -> (r: bool)
    ensures
        r == is_root_rar_spec(path@),
{
    let name_string = file_name_of(path);
    let name: &str = name_string.as_str();
    let ghost nm: Seq<char> = name@;
    let ln = name.unicode_len();
    if ln < 4 {
        return false;
    }
    let suffix_ok = name.get_char(ln - 4) == '.' && name.get_char(ln - 3) == 'r'
        && name.get_char(ln - 2) == 'a' && name.get_char(ln - 1) == 'r';
    if !suffix_ok {
        proof {
            assert(nm.subrange(nm.len() - 4, nm.len() as int) != dot_rar());
        }
        return false;
    }
    proof {
        assert(nm.subrange(nm.len() - 4, nm.len() as int) =~= dot_rar());
        assert(ends_with(nm, dot_rar()));
    }
    // scan the digit run that ends just before the `.rar` suffix
    let mut j: usize = ln - 4;
    while j > 0 && char_is_digit(name.get_char(j - 1))
        invariant
            nm == name@,
            nm.len() == ln,
            4 <= ln,
            j <= ln - 4,
            forall|t: int| j <= t < ln - 4 ==> is_digit(#[trigger] nm[t]),
        decreases j,
    {
        j -= 1;
    }
    proof {
        lemma_digit_run_start_char(nm, ln - 4, j as int);
    }
    if j == ln - 4 {
        // no digits before the suffix: not a part-numbered name
        return true;
    }
    if j < 4 {
        return true;
    }
    let part_ok = name.get_char(j - 4) == 'p' && name.get_char(j - 3) == 'a'
        && name.get_char(j - 2) == 'r' && name.get_char(j - 1) == 't';
    if !part_ok {
        proof {
            assert(nm.subrange(j - 4, j as int) != part_lit());
        }
        return true;
    }
    proof {
        assert(nm.subrange(j - 4, j as int) =~= part_lit());
        assert(part_pattern_match(nm));
        assert(all_digits(part_digits(nm))) by {
            assert(forall|t: int| 0 <= t < part_digits(nm).len()
                ==> part_digits(nm)[t] == nm[j + t]);
        }
        lemma_digits_value_one(part_digits(nm));
        assert(part_digits(nm).last() == nm[ln - 5]);
    }
    // the number reads as one exactly when the digits are 0* then 1
    if name.get_char(ln - 5) != '1' {
        return false;
    }
    let mut k: usize = j;
    while k < ln - 5
        invariant
            nm == name@,
            nm == file_name_spec(path@),
            nm.len() == ln,
            9 <= ln,
            4 <= j <= k <= ln - 5,
            part_pattern_match(nm),
            digit_run_start(nm, ln - 4) == j,
            nm[ln - 5] == '1',
            all_digits(part_digits(nm)),
            part_digits(nm).last() == nm[ln - 5],
            forall|t: int| j <= t < k ==> nm[t] == '0',
        decreases ln - k,
    {
        if name.get_char(k) != '0' {
            proof {
                let dgs = part_digits(nm);
                assert(dgs == nm.subrange(j as int, ln - 4));
                assert(dgs.len() == ln - 4 - j);
                assert(dgs[k - j] == nm[k as int]);
                assert(nm[k as int] != '0');
                assert(0 <= k - j < dgs.len() - 1);
                lemma_digits_value_one(dgs);
                assert(digits_value(dgs) != 1);
                assert(!name_is_root_spec(nm));
            }
            return false;
        }
        k += 1;
    }
    proof {
        lemma_digits_value_one(part_digits(nm));
        assert(forall|t: int| 0 <= t < part_digits(nm).len() - 1
            ==> part_digits(nm)[t] == nm[j + t] && nm[j + t] == '0');
    }
    true
}

} // verus!
