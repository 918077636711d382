//! Placeholders of a destination mask: `#` followed by a decimal index.
//!
//! A placeholder is a `#` and the longest run of ASCII digits behind it; `#12` is the
//! placeholder with index 12, not the placeholder `#1` followed by a `2`. A `#` with no
//! digit behind it is ordinary text.
use vstd::prelude::*;
use vstd::string::*;
use crate::text::has_char;

verus! {

pub open spec fn is_digit(c: char) -> bool {
    '0' <= c && c <= '9'
}

pub open spec fn digit_value(c: char) -> nat {
    (c as u32 - '0' as u32) as nat
}

/// How many digits `s` starts with.
pub open spec fn digit_run(s: Seq<char>) -> nat
    decreases s.len(),
{
    if s.len() > 0 && is_digit(s[0]) {
        1 + digit_run(s.skip(1))
    } else {
        0
    }
}

/// The number that a sequence of digits writes in base ten.
pub open spec fn decimal(ds: Seq<char>) -> nat
    decreases ds.len(),
{
    if ds.len() == 0 {
        0
    } else {
        decimal(ds.drop_last()) * 10 + digit_value(ds.last())
    }
}

/// Whether `s` begins with a placeholder.
pub open spec fn starts_placeholder(s: Seq<char>) -> bool {
    s.len() >= 2 && s[0] == '#' && is_digit(s[1])
}

/// The length of the placeholder that `s` begins with, the `#` included.
pub open spec fn placeholder_len(s: Seq<char>) -> nat {
    1 + digit_run(s.skip(1))
}

/// The index of the placeholder that `s` begins with.
pub open spec fn leading_index(s: Seq<char>) -> nat {
    decimal(s.subrange(1, placeholder_len(s) as int))
}

/// Whether a placeholder begins at position `i` of `mask`.
pub open spec fn placeholder_at(mask: Seq<char>, i: int) -> bool {
    0 <= i < mask.len() && starts_placeholder(mask.skip(i))
}

/// The index of the placeholder at position `i` of `mask`.
pub open spec fn index_at(mask: Seq<char>, i: int) -> nat {
    leading_index(mask.skip(i))
}

/// The destination that `mask` gives for the captures `caps`: each placeholder whose
/// index `k` lies in `1..=caps.len()` stands for `caps[k - 1]`, everything else stands
/// for itself. What was substituted is not read again.
pub open spec fn render(mask: Seq<char>, caps: Seq<Seq<char>>) -> Seq<char>
    decreases mask.len(),
    via render_decreases
{
    if mask.len() == 0 {
        Seq::<char>::empty()
    } else if starts_placeholder(mask) {
        let len = placeholder_len(mask) as int;
        let k = leading_index(mask);
        let piece = if 1 <= k <= caps.len() {
            caps[k - 1]
        } else {
            mask.take(len)
        };
        piece + render(mask.skip(len), caps)
    } else {
        seq![mask[0]] + render(mask.skip(1), caps)
    }
}

#[via_fn]
proof fn render_decreases(mask: Seq<char>, caps: Seq<Seq<char>>) {
    if mask.len() > 0 {
        lemma_digit_run_bound(mask.skip(1));
    }
}

/// A run of digits is no longer than the text it starts.
pub proof fn lemma_digit_run_bound(s: Seq<char>)
    ensures
        digit_run(s) <= s.len(),
        forall|i: int| 0 <= i < digit_run(s) ==> is_digit(#[trigger] s[i]),
        digit_run(s) < s.len() ==> !is_digit(s[digit_run(s) as int]),
    decreases s.len(),
{
    if s.len() > 0 && is_digit(s[0]) {
        let t = s.skip(1);
        lemma_digit_run_bound(t);
        assert forall|i: int| 0 <= i < digit_run(s) implies is_digit(#[trigger] s[i]) by {
            if i > 0 {
                assert(s[i] == t[i - 1]);
            }
        }
        if digit_run(s) < s.len() {
            assert(s[digit_run(s) as int] == t[digit_run(t) as int]);
        }
    }
}

/// Reads the run of digits that begins at `start`. Returns where it ends and the number
/// it writes, or `None` for a number that no `usize` holds.
fn read_digits(mask: &str, start: usize) -> (r: (usize, Option<usize>))
    requires
        start <= mask@.len(),
    ensures
        r.0 == start + digit_run(mask@.skip(start as int)),
        r.0 <= mask@.len(),
        match r.1 {
            Some(v) => v == decimal(mask@.subrange(start as int, r.0 as int)),
            None => decimal(mask@.subrange(start as int, r.0 as int)) > usize::MAX,
        },
{
    let n = mask.unicode_len();
    let mut j: usize = start;
    let mut acc: Option<usize> = Some(0);
    proof {
        assert(mask@.subrange(start as int, start as int).len() == 0);
    }
    while j < n
        invariant
            n == mask@.len(),
            start <= j <= n,
            digit_run(mask@.skip(start as int)) == (j - start) + digit_run(mask@.skip(j as int)),
            match acc {
                Some(v) => v == decimal(mask@.subrange(start as int, j as int)),
                None => decimal(mask@.subrange(start as int, j as int)) > usize::MAX,
            },
        decreases n - j,
    {
        let c = mask.get_char(j);
        proof {
            assert(mask@.skip(j as int)[0] == c);
        }
        if !(c >= '0' && c <= '9') {
            return (j, acc);
        }
        let d: usize = (c as u32 - '0' as u32) as usize;
        proof {
            assert(mask@.skip(j as int).skip(1) =~= mask@.skip(j + 1));
            let wider = mask@.subrange(start as int, j + 1);
            assert(wider.drop_last() =~= mask@.subrange(start as int, j as int));
            assert(wider.last() == c);
            assert(d == digit_value(c));
        }
        acc = match acc {
            Some(v) => {
                if v > usize::MAX / 10 {
                    None
                } else {
                    let t: usize = v * 10;
                    if d > usize::MAX - t {
                        None
                    } else {
                        Some(t + d)
                    }
                }
            },
            None => None,
        };
        j = j + 1;
    }
    proof {
        assert(mask@.skip(j as int).len() == 0);
    }
    (j, acc)
}

/// Reads the character at position `i` and the digits behind it. Returns their length
/// (1 where no digit follows) and the number that the digits write, or `None` for a
/// number that no `usize` holds. Where the character is a `#` and a digit follows, this
/// is the placeholder at `i` and its index.
pub fn read_placeholder(mask: &str, i: usize) -> (r: (usize, Option<usize>))
    requires
        i < mask@.len(),
    ensures
        r.0 == placeholder_len(mask@.skip(i as int)),
        1 <= r.0 <= mask@.len() - i,
        placeholder_at(mask@, i as int) <==> (mask@[i as int] == '#' && r.0 >= 2),
        match r.1 {
            Some(v) => v == index_at(mask@, i as int),
            None => index_at(mask@, i as int) > usize::MAX,
        },
{
    let n = mask.unicode_len();
    let (end, idx) = read_digits(mask, i + 1);
    proof {
        let s = mask@.skip(i as int);
        assert(s.skip(1) =~= mask@.skip(i + 1));
        assert(s.subrange(1, end - i) =~= mask@.subrange(i + 1, end as int));
        lemma_digit_run_bound(s.skip(1));
        if s.len() >= 2 {
            assert(s.skip(1)[0] == s[1]);
        }
    }
    (end - i, idx)
}

/// Writes out the destination that `mask` gives for the captures `caps`.
pub fn render_path(mask: &str, caps: &Vec<&str>) -> (out: String)
    ensures
        out@ == render(mask@, crate::text::slice_texts(caps@)),
{
    let ghost values = crate::text::slice_texts(caps@);
    let n = mask.unicode_len();
    let count = caps.len();
    let mut out = String::new();
    let mut i: usize = 0;
    proof {
        assert(mask@.skip(0) =~= mask@);
        assert(out@ + render(mask@, values) =~= render(mask@, values));
    }
    while i < n
        invariant
            n == mask@.len(),
            i <= n,
            values == crate::text::slice_texts(caps@),
            count == caps@.len(),
            out@ + render(mask@.skip(i as int), values) == render(mask@, values),
        decreases n - i,
    {
        let ghost rest = mask@.skip(i as int);
        let ghost before = out@;
        let c = mask.get_char(i);
        let mut len: usize = 1;
        let mut idx: Option<usize> = None;
        if c == '#' {
            let (l, k) = read_placeholder(mask, i);
            len = l;
            idx = k;
        }
        proof {
            assert(rest[0] == c);
            assert(rest.take(len as int) =~= mask@.subrange(i as int, i + len));
            assert(rest.skip(len as int) =~= mask@.skip(i + len));
            if !starts_placeholder(rest) {
                assert(len == 1);
                assert(rest.take(1) =~= seq![rest[0]]);
            }
        }
        let substituted = match idx {
            Some(k) => len >= 2 && 1 <= k && k <= count,
            None => false,
        };
        if substituted {
            let k = idx.unwrap();
            out.append(caps[k - 1]);
        } else {
            out.append(mask.substring_char(i, i + len));
        }
        proof {
            let piece = if starts_placeholder(rest) && 1 <= leading_index(rest) <= values.len() {
                values[leading_index(rest) - 1]
            } else {
                rest.take(len as int)
            };
            if substituted {
                assert(values[idx.unwrap() - 1] == caps@[idx.unwrap() - 1]@);
            }
            assert(out@ == before + piece);
            assert(render(rest, values) == piece + render(rest.skip(len as int), values));
            assert(out@ + render(rest.skip(len as int), values) =~= before + render(rest, values));
        }
        i = i + len;
    }
    proof {
        assert(mask@.skip(n as int).len() == 0);
        assert(out@ + Seq::<char>::empty() =~= out@);
    }
    out
}

/// Digits followed by something that is no digit form a run of exactly those digits.
pub proof fn lemma_digit_run_exact(digits: Seq<char>, rest: Seq<char>)
    requires
        forall|i: int| 0 <= i < digits.len() ==> is_digit(#[trigger] digits[i]),
        rest.len() == 0 || !is_digit(rest[0]),
    ensures
        digit_run(digits + rest) == digits.len(),
    decreases digits.len(),
{
    if digits.len() == 0 {
        assert(digits + rest =~= rest);
    } else {
        assert((digits + rest)[0] == digits[0]);
        assert((digits + rest).skip(1) =~= digits.skip(1) + rest);
        assert forall|i: int| 0 <= i < digits.skip(1).len() implies is_digit(
            #[trigger] digits.skip(1)[i],
        ) by {
            assert(digits.skip(1)[i] == digits[i + 1]);
        }
        lemma_digit_run_exact(digits.skip(1), rest);
    }
}

/// A `#`, digits and something that is no digit begin with the placeholder that the
/// digits write.
pub proof fn lemma_placeholder_shape(digits: Seq<char>, rest: Seq<char>)
    requires
        digits.len() > 0,
        forall|i: int| 0 <= i < digits.len() ==> is_digit(#[trigger] digits[i]),
        rest.len() == 0 || !is_digit(rest[0]),
    ensures
        starts_placeholder(seq!['#'] + digits + rest),
        placeholder_len(seq!['#'] + digits + rest) == 1 + digits.len(),
        leading_index(seq!['#'] + digits + rest) == decimal(digits),
{
    let whole = seq!['#'] + digits + rest;
    lemma_digit_run_exact(digits, rest);
    assert(whole.skip(1) =~= digits + rest);
    assert(whole[1] == digits[0]);
    assert(whole.subrange(1, 1 + digits.len() as int) =~= digits);
}

/// Text without a `#` is rendered as it stands, and what follows it is rendered as if
/// it stood alone.
pub proof fn lemma_render_literal(literal: Seq<char>, rest: Seq<char>, caps: Seq<Seq<char>>)
    requires
        !has_char(literal, '#'),
    ensures
        render(literal + rest, caps) == literal + render(rest, caps),
    decreases literal.len(),
{
    if literal.len() == 0 {
        assert(literal + rest =~= rest);
        assert(literal + render(rest, caps) =~= render(rest, caps));
    } else {
        let whole = literal + rest;
        let tail = literal.skip(1);
        assert(whole[0] == literal[0]);
        assert(literal[0] != '#');
        assert(whole.skip(1) =~= tail + rest);
        assert forall|i: int| 0 <= i < tail.len() implies tail[i] != '#' by {
            assert(tail[i] == literal[i + 1]);
        }
        lemma_render_literal(tail, rest, caps);
        assert(seq![whole[0]] + (tail + render(rest, caps)) =~= literal + render(rest, caps));
    }
}

/// A mask without a `#` is its own destination.
pub proof fn lemma_render_plain(mask: Seq<char>, caps: Seq<Seq<char>>)
    requires
        !has_char(mask, '#'),
    ensures
        render(mask, caps) == mask,
{
    let nothing = Seq::<char>::empty();
    lemma_render_literal(mask, nothing, caps);
    assert(mask + nothing =~= mask);
}

/// A placeholder `#k` with `k` in `1..=caps.len()` is rendered as the `k`-th capture,
/// exactly as captured, and what follows it is rendered as if it stood alone. Here
/// `digits` writes `k`, and `rest` does not go on with a digit.
pub proof fn lemma_render_placeholder(digits: Seq<char>, rest: Seq<char>, caps: Seq<Seq<char>>)
    requires
        digits.len() > 0,
        forall|i: int| 0 <= i < digits.len() ==> is_digit(#[trigger] digits[i]),
        rest.len() == 0 || !is_digit(rest[0]),
        1 <= decimal(digits) <= caps.len(),
    ensures
        render(seq!['#'] + digits + rest, caps) == caps[decimal(digits) - 1] + render(rest, caps),
{
    let whole = seq!['#'] + digits + rest;
    lemma_placeholder_shape(digits, rest);
    assert(whole.skip(1 + digits.len() as int) =~= rest);
}

} // verus!
