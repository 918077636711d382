//! Normalising masks, and checking a pair of masks before anything is matched.
use vstd::prelude::*;
use vstd::string::*;
use crate::error::PatternError;
use crate::placeholder::{
    decimal,
    index_at,
    is_digit,
    lemma_placeholder_shape,
    placeholder_at,
    read_placeholder,
};

verus! {

/// Whether two wildcards stand at positions `i` and `i + 1` of `mask`.
pub open spec fn double_wildcard_at(mask: Seq<char>, i: int) -> bool {
    0 <= i && i + 1 < mask.len() && mask[i] == '*' && mask[i + 1] == '*'
}

/// Whether `mask` holds two wildcards in a row.
pub open spec fn has_double_wildcard(mask: Seq<char>) -> bool {
    exists|i: int| double_wildcard_at(mask, i)
}

/// The number of wildcards in `mask`.
pub open spec fn wildcard_count(mask: Seq<char>) -> nat
    decreases mask.len(),
{
    if mask.len() == 0 {
        0
    } else if mask.last() == '*' {
        wildcard_count(mask.drop_last()) + 1
    } else {
        wildcard_count(mask.drop_last())
    }
}

/// Whether the placeholder at position `i` of `mask`, if there is one, has an index
/// outside `1..=count`.
pub open spec fn bad_index_at(mask: Seq<char>, count: nat, i: int) -> bool {
    placeholder_at(mask, i) && !(1 <= index_at(mask, i) <= count)
}

/// Whether every placeholder of `mask` has an index in `1..=count`.
pub open spec fn indices_in_range(mask: Seq<char>, count: nat) -> bool {
    forall|i: int| !bad_index_at(mask, count, i)
}

/// Whether the first placeholder of `mask` with an index outside `1..=count` is at
/// position `i`.
pub open spec fn first_bad_index_at(mask: Seq<char>, count: nat, i: int) -> bool {
    bad_index_at(mask, count, i) && forall|j: int| 0 <= j < i ==> !bad_index_at(mask, count, j)
}

/// Whether a pair of masks passes validation.
pub open spec fn masks_valid(mask_from: Seq<char>, mask_to: Seq<char>) -> bool {
    !has_double_wildcard(mask_from) && indices_in_range(mask_to, wildcard_count(mask_from))
}

/// Whether `e` is the fault that validation reports for a pair of masks that does not
/// pass: consecutive wildcards before any index, and of the indices the leftmost bad
/// one, too low if it is below 1 and too high otherwise.
pub open spec fn is_fault_of(mask_from: Seq<char>, mask_to: Seq<char>, e: PatternError) -> bool {
    if has_double_wildcard(mask_from) {
        e == PatternError::ConsecutiveWildcards
    } else {
        exists|i: int|
            first_bad_index_at(mask_to, wildcard_count(mask_from), i) && e == (if index_at(
                mask_to,
                i,
            ) < 1 {
                PatternError::IndexTooLow
            } else {
                PatternError::IndexTooHigh
            })
    }
}

/// Whether `c` separates path segments before normalisation.
pub open spec fn is_separator(c: char) -> bool {
    c == '/' || c == '\\'
}

/// A mask with forward slashes only, and no slash directly behind another: each run of
/// slashes and backslashes has become one slash.
pub open spec fn normalized(s: Seq<char>) -> Seq<char>
    decreases s.len(),
{
    if s.len() == 0 {
        s
    } else if is_separator(s.last()) {
        if s.len() >= 2 && is_separator(s[s.len() - 2]) {
            normalized(s.drop_last())
        } else {
            normalized(s.drop_last()).push('/')
        }
    } else {
        normalized(s.drop_last()).push(s.last())
    }
}

/// Counts the wildcards of `mask` and tells whether two of them stand in a row.
pub fn scan_wildcards(mask: &str) -> (r: (usize, bool))
    ensures
        r.0 == wildcard_count(mask@),
        r.1 == has_double_wildcard(mask@),
{
    let n = mask.unicode_len();
    let mut count: usize = 0;
    let mut doubled = false;
    let mut after_wildcard = false;
    let mut i: usize = 0;
    while i < n
        invariant
            n == mask@.len(),
            i <= n,
            count <= i,
            count == wildcard_count(mask@.take(i as int)),
            doubled == has_double_wildcard(mask@.take(i as int)),
            after_wildcard == (i > 0 && mask@[i - 1] == '*'),
        decreases n - i,
    {
        let c = mask.get_char(i);
        proof {
            let shorter = mask@.take(i as int);
            let wider = mask@.take(i + 1);
            assert(wider.drop_last() =~= shorter);
            assert(wider.last() == c);
            if has_double_wildcard(shorter) {
                let at = choose|at: int| double_wildcard_at(shorter, at);
                assert(double_wildcard_at(wider, at));
            }
            if c == '*' && after_wildcard {
                assert(double_wildcard_at(wider, i - 1));
            }
            if has_double_wildcard(wider) && !has_double_wildcard(shorter) {
                let at = choose|at: int| double_wildcard_at(wider, at);
                if at + 1 < shorter.len() {
                    assert(double_wildcard_at(shorter, at));
                }
            }
        }
        if c == '*' {
            count = count + 1;
            if after_wildcard {
                doubled = true;
            }
            after_wildcard = true;
        } else {
            after_wildcard = false;
        }
        i = i + 1;
    }
    proof {
        assert(mask@.take(n as int) =~= mask@);
    }
    (count, doubled)
}

/// Checks a pair of masks: the source mask may not hold two wildcards in a row, and
/// each placeholder of the destination mask must name one of the source mask's
/// wildcards, counted from 1. Of several faults the first one is reported: consecutive
/// wildcards before any index, and of the indices the leftmost bad one.
pub fn validate_patterns(mask_from: &str, mask_to: &str) -> (r: Result<(), PatternError>)
    ensures
        match r {
            Ok(_) => masks_valid(mask_from@, mask_to@),
            Err(e) => !masks_valid(mask_from@, mask_to@) && is_fault_of(mask_from@, mask_to@, e),
        },
{
    let (count, doubled) = scan_wildcards(mask_from);
    if doubled {
        return Err(PatternError::ConsecutiveWildcards);
    }
    let n = mask_to.unicode_len();
    let mut i: usize = 0;
    while i < n
        invariant
            n == mask_to@.len(),
            i <= n,
            count == wildcard_count(mask_from@),
            !has_double_wildcard(mask_from@),
            forall|j: int| 0 <= j < i ==> !bad_index_at(mask_to@, count as nat, j),
        decreases n - i,
    {
        if mask_to.get_char(i) == '#' {
            let (len, index) = read_placeholder(mask_to, i);
            if len >= 2 {
                let fault = match index {
                    Some(k) => {
                        if k < 1 {
                            Some(PatternError::IndexTooLow)
                        } else if k > count {
                            Some(PatternError::IndexTooHigh)
                        } else {
                            None
                        }
                    },
                    None => Some(PatternError::IndexTooHigh),
                };
                if let Some(e) = fault {
                    proof {
                        assert(first_bad_index_at(mask_to@, count as nat, i as int));
                    }
                    return Err(e);
                }
            }
        } else {
            proof {
                assert(mask_to@.skip(i as int)[0] != '#');
            }
        }
        i = i + 1;
    }
    Ok(())
}

/// Makes every separator of `mask` a forward slash and leaves one slash where several
/// separators stood in a row.
pub fn normalize_mask_slashes(mask: &mut String)
    ensures
        final(mask)@ == normalized(old(mask)@),
{
    let source = mask.clone();
    let text = source.as_str();
    let n = text.unicode_len();
    let mut out = String::new();
    let mut after_separator = false;
    let mut i: usize = 0;
    proof {
        assert(out@ =~= normalized(text@.take(0)));
    }
    while i < n
        invariant
            n == text@.len(),
            i <= n,
            out@ == normalized(text@.take(i as int)),
            after_separator == (i > 0 && is_separator(text@[i - 1])),
        decreases n - i,
    {
        let c = text.get_char(i);
        proof {
            let wider = text@.take(i + 1);
            assert(wider.drop_last() =~= text@.take(i as int));
            assert(wider.last() == c);
            if i > 0 {
                assert(wider[wider.len() - 2] == text@[i - 1]);
            }
        }
        if c == '/' || c == '\\' {
            if !after_separator {
                out.append("/");
                proof {
                    reveal_strlit("/");
                    assert(out@ =~= normalized(text@.take(i as int)).push('/'));
                }
            }
            after_separator = true;
        } else {
            out.append(text.substring_char(i, i + 1));
            proof {
                assert(out@ =~= normalized(text@.take(i as int)).push(c));
            }
            after_separator = false;
        }
        i = i + 1;
    }
    proof {
        assert(text@.take(n as int) =~= text@);
    }
    *mask = out;
}

/// A normalised mask holds no backslash and no slash directly behind another, and it
/// ends in a slash exactly where the mask ended in a separator.
pub proof fn lemma_normalized_is_clean(s: Seq<char>)
    ensures
        forall|i: int| 0 <= i < normalized(s).len() ==> #[trigger] normalized(s)[i] != '\\',
        forall|i: int|
            0 < i < normalized(s).len() ==> !(normalized(s)[i - 1] == '/' && #[trigger] normalized(
                s,
            )[i] == '/'),
        s.len() > 0 ==> normalized(s).len() > 0 && (normalized(s).last() == '/' <==> is_separator(
            s.last(),
        )),
    decreases s.len(),
{
    if s.len() > 0 {
        let front = s.drop_last();
        lemma_normalized_is_clean(front);
        if front.len() > 0 {
            assert(front.last() == s[s.len() - 2]);
        }
        let all = normalized(s);
        let earlier = normalized(front);
        assert forall|i: int| 0 < i < all.len() implies !(all[i - 1] == '/' && #[trigger] all[i]
            == '/') by {
            if i < earlier.len() {
                assert(all[i] == earlier[i]);
                assert(all[i - 1] == earlier[i - 1]);
            }
        }
        assert forall|i: int| 0 <= i < all.len() implies #[trigger] all[i] != '\\' by {
            if i < earlier.len() {
                assert(all[i] == earlier[i]);
            }
        }
    }
}

/// Normalising changes nothing in a mask that holds no backslash and no slash directly
/// behind another.
pub proof fn lemma_normalized_fixed_point(s: Seq<char>)
    requires
        forall|i: int| 0 <= i < s.len() ==> #[trigger] s[i] != '\\',
        forall|i: int| 0 < i < s.len() ==> !(s[i - 1] == '/' && #[trigger] s[i] == '/'),
    ensures
        normalized(s) == s,
    decreases s.len(),
{
    if s.len() > 0 {
        let front = s.drop_last();
        assert forall|i: int| 0 <= i < front.len() implies #[trigger] front[i] != '\\' by {
            assert(front[i] == s[i]);
        }
        assert forall|i: int| 0 < i < front.len() implies !(front[i - 1] == '/'
            && #[trigger] front[i] == '/') by {
            assert(front[i] == s[i]);
            assert(front[i - 1] == s[i - 1]);
        }
        lemma_normalized_fixed_point(front);
        assert(s.last() == s[s.len() - 1]);
        if s.len() >= 2 {
            assert(s[s.len() - 2] != '\\');
            assert(!(s[s.len() - 1 - 1] == '/' && s[s.len() - 1] == '/'));
        }
        assert(front.push(s.last()) =~= s);
    }
}

/// A destination mask that refers to `#0`, or to an index above the number of wildcards
/// in the source mask, does not pass validation, wherever the reference stands. Here
/// `digits` writes the index, and `behind` does not go on with a digit.
pub proof fn lemma_reference_out_of_range(
    mask_from: Seq<char>,
    before: Seq<char>,
    digits: Seq<char>,
    behind: Seq<char>,
)
    requires
        digits.len() > 0,
        forall|i: int| 0 <= i < digits.len() ==> is_digit(#[trigger] digits[i]),
        behind.len() == 0 || !is_digit(behind[0]),
        decimal(digits) == 0 || decimal(digits) > wildcard_count(mask_from),
    ensures
        !masks_valid(mask_from, before + (seq!['#'] + digits + behind)),
{
    let reference = seq!['#'] + digits + behind;
    let mask_to = before + reference;
    lemma_placeholder_shape(digits, behind);
    assert(mask_to.skip(before.len() as int) =~= reference);
    assert(bad_index_at(mask_to, wildcard_count(mask_from), before.len() as int));
}

/// A source mask that holds `**` anywhere does not pass validation.
pub proof fn lemma_double_wildcard_refused(before: Seq<char>, behind: Seq<char>, mask_to: Seq<char>)
    ensures
        !masks_valid(before + seq!['*', '*'] + behind, mask_to),
{
    let mask_from = before + seq!['*', '*'] + behind;
    assert(double_wildcard_at(mask_from, before.len() as int));
}

} // verus!
