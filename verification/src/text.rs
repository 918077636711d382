//! Paths as sequences of characters, and their slash-separated segments.
use vstd::prelude::*;
use vstd::string::*;

verus! {

/// The contents of a sequence of strings.
pub open spec fn texts(v: Seq<String>) -> Seq<Seq<char>> {
    Seq::new(v.len(), |i: int| v[i]@)
}

/// The contents of a sequence of string slices.
pub open spec fn slice_texts(v: Seq<&str>) -> Seq<Seq<char>> {
    Seq::new(v.len(), |i: int| v[i]@)
}

/// The segments of a path: the pieces between its slashes. A path with `k` slashes has
/// `k + 1` segments, some of which may be empty.
pub open spec fn segments(s: Seq<char>) -> Seq<Seq<char>>
    decreases s.len(),
{
    if s.len() == 0 {
        seq![Seq::<char>::empty()]
    } else {
        let before = segments(s.drop_last());
        if s.last() == '/' {
            before.push(Seq::<char>::empty())
        } else {
            before.drop_last().push(before.last().push(s.last()))
        }
    }
}

/// Whether `c` occurs in `s`.
pub open spec fn has_char(s: Seq<char>, c: char) -> bool {
    exists|i: int| 0 <= i < s.len() && s[i] == c
}

/// A path always has at least one segment.
pub proof fn lemma_segments_nonempty(s: Seq<char>)
    ensures
        segments(s).len() >= 1,
    decreases s.len(),
{
    if s.len() > 0 {
        lemma_segments_nonempty(s.drop_last());
    }
}

/// A path without a slash is its own single segment.
pub proof fn lemma_segments_of_plain(s: Seq<char>)
    requires
        !has_char(s, '/'),
    ensures
        segments(s) == seq![s],
    decreases s.len(),
{
    if s.len() > 0 {
        let front = s.drop_last();
        assert forall|i: int| 0 <= i < front.len() implies front[i] != '/' by {
            assert(front[i] == s[i]);
        }
        lemma_segments_of_plain(front);
        assert(s.last() == s[s.len() - 1]);
        assert(seq![front].drop_last().push(seq![front].last().push(s.last())) =~~= seq![s]);
    } else {
        assert(seq![Seq::<char>::empty()] =~~= seq![s]);
    }
}

/// A slash separates what stands before it from what stands behind it: the segments of
/// the whole are those of the one followed by those of the other.
pub proof fn lemma_segments_split(before: Seq<char>, behind: Seq<char>)
    ensures
        segments(before + seq!['/'] + behind) == segments(before) + segments(behind),
    decreases behind.len(),
{
    let whole = before + seq!['/'] + behind;
    if behind.len() == 0 {
        assert(whole.drop_last() =~= before);
        assert(segments(before).push(Seq::<char>::empty()) =~= segments(before) + segments(
            behind,
        ));
    } else {
        let shorter = behind.drop_last();
        assert(whole.drop_last() =~= before + seq!['/'] + shorter);
        assert(whole.last() == behind.last());
        lemma_segments_split(before, shorter);
        lemma_segments_nonempty(shorter);
        let joined = segments(before) + segments(shorter);
        if behind.last() == '/' {
            assert(joined.push(Seq::<char>::empty()) =~= segments(before) + segments(behind));
        } else {
            assert(joined.drop_last() =~= segments(before) + segments(shorter).drop_last());
            assert(joined.last() == segments(shorter).last());
            assert(joined.drop_last().push(joined.last().push(behind.last())) =~= segments(before)
                + segments(behind));
        }
    }
}

/// Splits a path at its slashes.
pub fn split_segments(s: &str) -> (out: Vec<String>)
    ensures
        texts(out@) == segments(s@),
{
    let n = s.unicode_len();
    let mut out: Vec<String> = Vec::new();
    let mut start: usize = 0;
    let mut i: usize = 0;
    proof {
        assert(s@.take(0).len() == 0);
        assert(texts(out@).push(s@.subrange(0, 0)) =~~= seq![Seq::<char>::empty()]);
    }
    while i < n
        invariant
            n == s@.len(),
            start <= i <= n,
            segments(s@.take(i as int)) == texts(out@).push(s@.subrange(start as int, i as int)),
        decreases n - i,
    {
        let c = s.get_char(i);
        let ghost before = texts(out@).push(s@.subrange(start as int, i as int));
        proof {
            assert(s@.take(i + 1).drop_last() =~= s@.take(i as int));
            assert(s@.take(i + 1).last() == c);
        }
        if c == '/' {
            out.push(String::from_str(s.substring_char(start, i)));
            start = i + 1;
            proof {
                assert(texts(out@).push(s@.subrange(start as int, i + 1)) =~~= before.push(
                    Seq::<char>::empty(),
                ));
            }
        } else {
            proof {
                assert(before.drop_last() =~~= texts(out@));
                assert(before.last().push(c) =~= s@.subrange(start as int, i + 1));
            }
        }
        i = i + 1;
    }
    let ghost done = texts(out@);
    out.push(String::from_str(s.substring_char(start, n)));
    proof {
        assert(s@.take(n as int) =~= s@);
        assert(texts(out@) =~~= done.push(s@.subrange(start as int, n as int)));
    }
    out
}

/// A path with each backslash turned into a slash.
pub open spec fn slashed(s: Seq<char>) -> Seq<char> {
    Seq::new(
        s.len(),
        |i: int|
            if s[i] == '\\' {
                '/'
            } else {
                s[i]
            },
    )
}

/// Whether a path begins with `./`.
pub open spec fn has_dot_slash(s: Seq<char>) -> bool {
    s.len() >= 2 && s[0] == '.' && s[1] == '/'
}

/// A listed path as the masks see it: without a leading `./`, and with forward slashes
/// only.
pub open spec fn relative(shown: Seq<char>) -> Seq<char> {
    slashed(
        if has_dot_slash(shown) {
            shown.skip(2)
        } else {
            shown
        },
    )
}

/// Turns a path as the directory walk shows it into the path that the masks are matched
/// against.
pub fn relative_path(shown: &str) -> (out: String)
    ensures
        out@ == relative(shown@),
{
    let n = shown.unicode_len();
    let mut start: usize = 0;
    if n >= 2 && shown.get_char(0) == '.' && shown.get_char(1) == '/' {
        start = 2;
    }
    let mut out = String::new();
    let mut i: usize = start;
    proof {
        assert(out@ =~= slashed(shown@.subrange(start as int, start as int)));
    }
    while i < n
        invariant
            n == shown@.len(),
            start <= i <= n,
            out@ == slashed(shown@.subrange(start as int, i as int)),
        decreases n - i,
    {
        let ghost before = out@;
        if shown.get_char(i) == '\\' {
            out.append("/");
            proof {
                reveal_strlit("/");
            }
        } else {
            out.append(shown.substring_char(i, i + 1));
        }
        proof {
            assert(out@ =~= slashed(shown@.subrange(start as int, i + 1)));
        }
        i = i + 1;
    }
    proof {
        assert(shown@.subrange(start as int, n as int) =~= shown@.skip(start as int));
        assert(shown@.skip(0) =~= shown@);
    }
    out
}

} // verus!
