//! Finding the files that a source mask matches.
//!
//! A source mask is matched segment by segment. Each segment becomes a regular
//! expression: its wildcards turn into capturing groups, everything else is escaped, and
//! the whole is anchored at both ends. The expression itself is run by the `regex` crate.
use vstd::prelude::*;
use vstd::string::*;
use crate::error::PatternError;
use crate::file_match::Match;
use crate::placeholder::render;
use crate::text::{segments, slice_texts, split_segments, texts};

verus! {

/// `regex::Error`: why `regex::Regex::new` did not accept a pattern. It is carried
/// through and never read.
#[verifier::external_type_specification]
#[verifier::external_body]
pub struct ExRegexError(regex::Error);

/// The characters that mean something in a regular expression.
pub open spec fn is_meta(c: char) -> bool {
    c == '\\' || c == '.' || c == '+' || c == '*' || c == '?' || c == '(' || c == ')' || c == '|'
        || c == '[' || c == ']' || c == '{' || c == '}' || c == '^' || c == '$' || c == '#' || c
        == '&' || c == '-' || c == '~'
}

/// One character as a literal of a regular expression.
pub open spec fn escaped_char(c: char) -> Seq<char> {
    if is_meta(c) {
        seq!['\\', c]
    } else {
        seq![c]
    }
}

/// A text as a literal of a regular expression: a backslash before each character that
/// means something there.
pub open spec fn escaped(s: Seq<char>) -> Seq<char>
    decreases s.len(),
{
    if s.len() == 0 {
        Seq::<char>::empty()
    } else {
        escaped(s.drop_last()) + escaped_char(s.last())
    }
}

/// The capturing group that a wildcard becomes.
pub open spec fn wildcard_group() -> Seq<char> {
    seq!['(', '.', '*', ')']
}

/// The regular expression of a mask segment, without its anchors.
pub open spec fn pattern_body(seg: Seq<char>) -> Seq<char>
    decreases seg.len(),
{
    if seg.len() == 0 {
        Seq::<char>::empty()
    } else if seg.last() == '*' {
        pattern_body(seg.drop_last()) + wildcard_group()
    } else {
        pattern_body(seg.drop_last()) + escaped_char(seg.last())
    }
}

/// The regular expression of a mask segment: it matches a whole path segment or nothing.
pub open spec fn segment_pattern(seg: Seq<char>) -> Seq<char> {
    seq!['^'] + pattern_body(seg) + seq!['$']
}

/// Whether `regex::Regex::new` accepts `pattern`.
pub uninterp spec fn regex_compiles(pattern: Seq<char>) -> bool;

/// What `regex::Regex::captures` finds for an accepted `pattern` in `text`: `None` where
/// the pattern does not match, else the text of each group, `None` for a group that took
/// no part in the match. The first group is the whole match; the capturing groups of the
/// pattern follow in the order in which they open.
pub uninterp spec fn regex_groups(pattern: Seq<char>, text: Seq<char>) -> Option<
    Seq<Option<Seq<char>>>,
>;

/// The contents of what a search returned.
pub open spec fn group_views(groups: Seq<Option<String>>) -> Seq<Option<Seq<char>>> {
    Seq::new(
        groups.len(),
        |i: int|
            match groups[i] {
                Some(s) => Some(s@),
                None => None,
            },
    )
}

/// The text of one group: a group that took no part captured nothing.
pub open spec fn group_text(group: Option<Seq<char>>) -> Seq<char> {
    match group {
        Some(t) => t,
        None => Seq::<char>::empty(),
    }
}

/// The captures that the groups of a search stand for: the text of every group but the
/// first, which is the whole match.
pub open spec fn group_texts(groups: Seq<Option<Seq<char>>>) -> Seq<Seq<char>> {
    Seq::new(
        if groups.len() > 0 {
            (groups.len() - 1) as nat
        } else {
            0
        },
        |i: int| group_text(groups[i + 1]),
    )
}

/// What matching a mask against a text comes to.
pub enum Found {
    /// The matching engine does not take the mask.
    Unusable,
    /// The text does not match.
    Miss,
    /// The text matches, with these captures.
    Hit(Seq<Seq<char>>),
}

/// Puts earlier captures in front of what the rest of a match found.
pub open spec fn after(caps: Seq<Seq<char>>, rest: Found) -> Found {
    match rest {
        Found::Hit(more) => Found::Hit(caps + more),
        other => other,
    }
}

/// What matching one mask segment against one path segment comes to.
pub open spec fn segment_found(mask_seg: Seq<char>, text: Seq<char>) -> Found {
    let pattern = segment_pattern(mask_seg);
    if !regex_compiles(pattern) {
        Found::Unusable
    } else {
        match regex_groups(pattern, text) {
            None => Found::Miss,
            Some(groups) => Found::Hit(group_texts(groups)),
        }
    }
}

/// What matching mask segments against as many path segments comes to, from left to
/// right: the first segment that fails decides, and the captures of all segments follow
/// one another.
pub open spec fn segments_found(mask_segs: Seq<Seq<char>>, path_segs: Seq<Seq<char>>) -> Found
    recommends
        mask_segs.len() == path_segs.len(),
    decreases mask_segs.len(),
{
    if mask_segs.len() == 0 {
        Found::Hit(Seq::empty())
    } else {
        match segment_found(mask_segs[0], path_segs[0]) {
            Found::Hit(caps) => after(caps, segments_found(mask_segs.skip(1), path_segs.skip(1))),
            other => other,
        }
    }
}

/// What matching a mask against a path comes to. A path with another number of segments
/// than the mask does not match, whatever it holds.
pub open spec fn path_found(mask_segs: Seq<Seq<char>>, path_segs: Seq<Seq<char>>) -> Found {
    if mask_segs.len() != path_segs.len() {
        Found::Miss
    } else {
        segments_found(mask_segs, path_segs)
    }
}

/// What an executable match returned, as a `Found`.
pub open spec fn found_view(r: Result<Option<Vec<String>>, PatternError>) -> Found {
    match r {
        Err(_) => Found::Unusable,
        Ok(None) => Found::Miss,
        Ok(Some(caps)) => Found::Hit(texts(caps@)),
    }
}

/// Calls `regex::escape`, which puts a backslash before each of the characters listed in
/// `is_meta` and leaves the others as they are.
#[verifier::external_body]
fn escape_literal(text: &str) -> (out: String)
    ensures
        out@ == escaped(text@),
{
    regex::escape(text)
}

/// Compiles `pattern` with `regex::Regex::new` and searches `text` with
/// `Regex::captures`. The contract names both results and claims nothing else of them:
/// the call fails exactly where the pattern is not accepted, and otherwise returns what
/// the search found, each group of `Captures::iter` by the text of its `Match::as_str`.
#[verifier::external_body]
fn capture_groups(pattern: &str, text: &str) -> (r: Result<
    Option<Vec<Option<String>>>,
    regex::Error,
>)
    ensures
        r is Ok <==> regex_compiles(pattern@),
        r matches Ok(found) ==> (match found {
            Some(groups) => Some(group_views(groups@)),
            None => None,
        }) == regex_groups(pattern@, text@),
{
    let re = regex::Regex::new(pattern)?;
    let found = re.captures(text);
    Ok(found.map(|c| c.iter().map(|g| g.map(|m| m.as_str().to_string())).collect()))
}

/// Builds the regular expression of a mask segment.
pub fn compile_segment(seg: &str) -> (pattern: String)
    ensures
        pattern@ == segment_pattern(seg@),
{
    let n = seg.unicode_len();
    let mut pattern = String::from_str("^");
    let mut i: usize = 0;
    proof {
        reveal_strlit("^");
        assert(pattern@ =~= seq!['^'] + pattern_body(seg@.take(0)));
    }
    while i < n
        invariant
            n == seg@.len(),
            i <= n,
            pattern@ == seq!['^'] + pattern_body(seg@.take(i as int)),
        decreases n - i,
    {
        let c = seg.get_char(i);
        let ghost before = pattern@;
        proof {
            assert(seg@.take(i + 1).drop_last() =~= seg@.take(i as int));
            assert(seg@.take(i + 1).last() == c);
        }
        if c == '*' {
            pattern.append("(.*)");
            proof {
                reveal_strlit("(.*)");
                assert("(.*)"@ =~= wildcard_group());
            }
        } else {
            let literal = escape_literal(seg.substring_char(i, i + 1));
            proof {
                let one = seg@.subrange(i as int, i + 1);
                assert(one.drop_last() =~= Seq::<char>::empty());
                assert(one.last() == c);
                assert(escaped(one.drop_last()).len() == 0);
                assert(escaped(one) =~= escaped_char(c));
            }
            pattern.append(literal.as_str());
        }
        proof {
            assert(pattern@ =~= seq!['^'] + pattern_body(seg@.take(i + 1)));
        }
        i = i + 1;
    }
    pattern.append("$");
    proof {
        reveal_strlit("$");
        assert(seg@.take(n as int) =~= seg@);
        assert(pattern@ =~= segment_pattern(seg@));
    }
    pattern
}

/// Turns the groups of a search into captures: the text of every group but the first,
/// and the empty text for a group that took no part.
pub fn captures_of(groups: &Vec<Option<String>>) -> (caps: Vec<String>)
    ensures
        texts(caps@) == group_texts(group_views(groups@)),
{
    let mut caps: Vec<String> = Vec::new();
    let mut i: usize = 1;
    while i < groups.len()
        invariant
            1 <= i,
            i <= groups@.len() || groups@.len() == 0,
            caps@.len() == (if groups@.len() == 0 {
                0
            } else {
                i - 1
            }),
            forall|j: int|
                0 <= j < caps@.len() ==> (#[trigger] caps@[j])@ == group_text(
                    group_views(groups@)[j + 1],
                ),
        decreases groups@.len() - i,
    {
        match &groups[i] {
            Some(s) => caps.push(s.clone()),
            None => caps.push(String::new()),
        }
        i = i + 1;
    }
    proof {
        assert(texts(caps@) =~~= group_texts(group_views(groups@)));
    }
    caps
}

/// Matches one mask segment against one path segment.
pub fn match_segment(mask_seg: &str, text: &str) -> (r: Result<Option<Vec<String>>, PatternError>)
    ensures
        found_view(r) == segment_found(mask_seg@, text@),
        r is Err ==> r->Err_0 == PatternError::Rejected,
{
    let pattern = compile_segment(mask_seg);
    match capture_groups(pattern.as_str(), text) {
        Err(_) => Err(PatternError::Rejected),
        Ok(None) => Ok(None),
        Ok(Some(groups)) => Ok(Some(captures_of(&groups))),
    }
}

/// Matches a mask, given by its segments, against a path.
pub fn match_path(mask_segs: &Vec<String>, path: &str) -> (r: Result<
    Option<Vec<String>>,
    PatternError,
>)
    ensures
        found_view(r) == path_found(texts(mask_segs@), segments(path@)),
        r is Err ==> r->Err_0 == PatternError::Rejected,
{
    let path_segs = split_segments(path);
    let ghost ms = texts(mask_segs@);
    let ghost ps = segments(path@);
    if path_segs.len() != mask_segs.len() {
        return Ok(None);
    }
    let n = mask_segs.len();
    let mut caps: Vec<String> = Vec::new();
    let mut k: usize = 0;
    proof {
        assert(ms.skip(0) =~= ms);
        assert(ps.skip(0) =~= ps);
        assert(texts(caps@) =~= Seq::<Seq<char>>::empty());
        assert(after(texts(caps@), segments_found(ms, ps)) == segments_found(ms, ps)) by {
            match segments_found(ms, ps) {
                Found::Hit(more) => {
                    assert(texts(caps@) + more =~= more);
                },
                _ => {},
            }
        }
    }
    while k < n
        invariant
            n == mask_segs@.len(),
            n == path_segs@.len(),
            ms == texts(mask_segs@),
            ps == texts(path_segs@),
            ps == segments(path@),
            k <= n,
            after(texts(caps@), segments_found(ms.skip(k as int), ps.skip(k as int)))
                == segments_found(ms, ps),
        decreases n - k,
    {
        let ghost so_far = texts(caps@);
        let ghost rest = segments_found(ms.skip(k + 1), ps.skip(k + 1));
        proof {
            assert(ms.skip(k as int).skip(1) =~= ms.skip(k + 1));
            assert(ps.skip(k as int).skip(1) =~= ps.skip(k + 1));
            assert(ms.skip(k as int)[0] == mask_segs@[k as int]@);
            assert(ps.skip(k as int)[0] == path_segs@[k as int]@);
        }
        match match_segment(mask_segs[k].as_str(), path_segs[k].as_str()) {
            Err(e) => {
                return Err(e);
            },
            Ok(None) => {
                return Ok(None);
            },
            Ok(Some(mut found)) => {
                let ghost here = texts(found@);
                caps.append(&mut found);
                proof {
                    assert(texts(caps@) =~~= so_far + here);
                    match rest {
                        Found::Hit(more) => {
                            assert((so_far + here) + more =~= so_far + (here + more));
                        },
                        _ => {},
                    }
                }
            },
        }
        k = k + 1;
    }
    proof {
        assert(ms.skip(n as int).len() == 0);
        assert(texts(caps@) + Seq::<Seq<char>>::empty() =~= texts(caps@));
    }
    Ok(Some(caps))
}

/// The two paths of each match.
pub open spec fn match_views(v: Seq<Match>) -> Seq<(Seq<char>, Seq<char>)> {
    Seq::new(v.len(), |i: int| v[i]@)
}

/// A sequence without the items that repeat the item just before them.
pub open spec fn dedup_adjacent<T>(s: Seq<T>) -> Seq<T>
    decreases s.len(),
{
    if s.len() == 0 {
        s
    } else if s.len() >= 2 && s[s.len() - 2] == s.last() {
        dedup_adjacent(s.drop_last())
    } else {
        dedup_adjacent(s.drop_last()).push(s.last())
    }
}

/// The matches among `candidates`, in their order: each candidate that the mask
/// matches, with the destination that `new_mask` gives for its captures.
pub open spec fn collected(
    mask_segs: Seq<Seq<char>>,
    new_mask: Seq<char>,
    candidates: Seq<Seq<char>>,
) -> Seq<(Seq<char>, Seq<char>)>
    decreases candidates.len(),
{
    if candidates.len() == 0 {
        Seq::empty()
    } else {
        let earlier = collected(mask_segs, new_mask, candidates.drop_last());
        match path_found(mask_segs, segments(candidates.last())) {
            Found::Hit(caps) => earlier.push((candidates.last(), render(new_mask, caps))),
            _ => earlier,
        }
    }
}

/// Whether matching some candidate runs into a mask segment that the matching engine
/// does not take.
pub open spec fn unusable_for(mask_segs: Seq<Seq<char>>, candidates: Seq<Seq<char>>) -> bool {
    exists|i: int|
        0 <= i < candidates.len() && path_found(mask_segs, segments(#[trigger] candidates[i]))
            is Unusable
}

/// The strings of `v` as slices.
fn as_slices<'a>(v: &'a Vec<String>) -> (out: Vec<&'a str>)
    ensures
        slice_texts(out@) == texts(v@),
{
    let mut out: Vec<&'a str> = Vec::new();
    let mut i: usize = 0;
    while i < v.len()
        invariant
            i <= v@.len(),
            out@.len() == i,
            forall|j: int| 0 <= j < i ==> (#[trigger] out@[j])@ == v@[j]@,
        decreases v@.len() - i,
    {
        out.push(v[i].as_str());
        i = i + 1;
    }
    proof {
        assert(slice_texts(out@) =~~= texts(v@));
    }
    out
}

/// Drops each match that repeats the match just before it.
pub fn dedup_matches(matches: &Vec<Match>) -> (out: Vec<Match>)
    ensures
        match_views(out@) == dedup_adjacent(match_views(matches@)),
{
    let ghost all = match_views(matches@);
    let mut out: Vec<Match> = Vec::new();
    let mut i: usize = 0;
    proof {
        assert(match_views(out@) =~= dedup_adjacent(all.take(0)));
    }
    while i < matches.len()
        invariant
            i <= matches@.len(),
            all == match_views(matches@),
            match_views(out@) == dedup_adjacent(all.take(i as int)),
        decreases matches@.len() - i,
    {
        let ghost kept = match_views(out@);
        proof {
            let wider = all.take(i + 1);
            assert(wider.drop_last() =~= all.take(i as int));
            assert(wider.last() == matches@[i as int]@);
            if i >= 1 {
                assert(wider[wider.len() - 2] == matches@[i - 1]@);
            }
        }
        if i == 0 || !matches[i - 1].same_as(&matches[i]) {
            out.push(
                Match {
                    old_file_path: matches[i].old_file_path.clone(),
                    new_file_path: matches[i].new_file_path.clone(),
                },
            );
            proof {
                assert(match_views(out@) =~= kept.push(matches@[i as int]@));
            }
        }
        i = i + 1;
    }
    proof {
        assert(all.take(matches@.len() as int) =~= all);
    }
    out
}

/// Finds the matches of `old_file_mask` among the paths `candidates`, and gives each the
/// destination that `new_file_mask` makes of its captures. The matches come in the order
/// of the candidates; one that repeats the match just before it is dropped.
///
/// Fails only where matching a candidate runs into a mask segment that the matching
/// engine does not take.
pub fn find_matches(old_file_mask: &str, new_file_mask: &str, candidates: &Vec<String>) -> (r:
    Result<Vec<Match>, PatternError>)
    ensures
        match r {
            Ok(found) => !unusable_for(segments(old_file_mask@), texts(candidates@))
                && match_views(found@) == dedup_adjacent(
                collected(segments(old_file_mask@), new_file_mask@, texts(candidates@)),
            ),
            Err(e) => e == PatternError::Rejected && unusable_for(
                segments(old_file_mask@),
                texts(candidates@),
            ),
        },
{
    let mask_segs = split_segments(old_file_mask);
    let ghost ms = segments(old_file_mask@);
    let ghost paths = texts(candidates@);
    let mut matches: Vec<Match> = Vec::new();
    let mut i: usize = 0;
    proof {
        assert(match_views(matches@) =~= collected(ms, new_file_mask@, paths.take(0)));
    }
    while i < candidates.len()
        invariant
            i <= candidates@.len(),
            ms == texts(mask_segs@),
            ms == segments(old_file_mask@),
            paths == texts(candidates@),
            forall|j: int| 0 <= j < i ==> !(path_found(ms, segments(#[trigger] paths[j])) is Unusable),
            match_views(matches@) == collected(ms, new_file_mask@, paths.take(i as int)),
        decreases candidates@.len() - i,
    {
        let path = candidates[i].as_str();
        let ghost kept = match_views(matches@);
        proof {
            let wider = paths.take(i + 1);
            assert(wider.drop_last() =~= paths.take(i as int));
            assert(wider.last() == path@);
            assert(paths[i as int] == path@);
        }
        match match_path(&mask_segs, path) {
            Err(e) => {
                return Err(e);
            },
            Ok(None) => {},
            Ok(Some(caps)) => {
                let values = as_slices(&caps);
                matches.push(Match::new(path, new_file_mask, values));
                proof {
                    assert(match_views(matches@) =~= kept.push(
                        (path@, render(new_file_mask@, texts(caps@))),
                    ));
                }
            },
        }
        i = i + 1;
    }
    proof {
        assert(paths.take(candidates@.len() as int) =~= paths);
    }
    Ok(dedup_matches(&matches))
}

/// A path with another number of segments than the mask is not matched, whatever the
/// two hold.
pub proof fn lemma_segment_count_mismatch(mask: Seq<char>, path: Seq<char>)
    requires
        segments(mask).len() != segments(path).len(),
    ensures
        path_found(segments(mask), segments(path)) == Found::Miss,
{
}

/// Every match that is collected has an old path with as many segments as the mask.
pub proof fn lemma_collected_fit_mask(
    mask_segs: Seq<Seq<char>>,
    new_mask: Seq<char>,
    candidates: Seq<Seq<char>>,
)
    ensures
        forall|i: int|
            0 <= i < collected(mask_segs, new_mask, candidates).len() ==> segments(
                (#[trigger] collected(mask_segs, new_mask, candidates)[i]).0,
            ).len() == mask_segs.len(),
    decreases candidates.len(),
{
    if candidates.len() > 0 {
        lemma_collected_fit_mask(mask_segs, new_mask, candidates.drop_last());
        let all = collected(mask_segs, new_mask, candidates);
        let earlier = collected(mask_segs, new_mask, candidates.drop_last());
        assert forall|i: int| 0 <= i < all.len() implies segments((#[trigger] all[i]).0).len()
            == mask_segs.len() by {
            if i < earlier.len() {
                assert(all[i] == earlier[i]);
            }
        }
    }
}

/// After deduplication no item repeats the item just before it, and the last item is
/// still the last.
pub proof fn lemma_dedup_no_adjacent_repeat<T>(s: Seq<T>)
    ensures
        forall|i: int|
            0 < i < dedup_adjacent(s).len() ==> dedup_adjacent(s)[i - 1] != #[trigger] dedup_adjacent(
                s,
            )[i],
        s.len() > 0 ==> dedup_adjacent(s).len() > 0 && dedup_adjacent(s).last() == s.last(),
    decreases s.len(),
{
    if s.len() > 0 {
        let front = s.drop_last();
        lemma_dedup_no_adjacent_repeat(front);
        let all = dedup_adjacent(s);
        let earlier = dedup_adjacent(front);
        if front.len() > 0 {
            assert(front.last() == s[s.len() - 2]);
        }
        assert forall|i: int| 0 < i < all.len() implies all[i - 1] != #[trigger] all[i] by {
            if i < earlier.len() {
                assert(all[i] == earlier[i]);
                assert(all[i - 1] == earlier[i - 1]);
            }
        }
    }
}

/// Deduplication removes adjacent repeats only: a sequence in which no item repeats the
/// item just before it stays as it is, even where an item occurs again further on.
pub proof fn lemma_dedup_keeps_separated(s: Seq<(Seq<char>, Seq<char>)>)
    requires
        forall|i: int| 0 < i < s.len() ==> s[i - 1] != #[trigger] s[i],
    ensures
        dedup_adjacent(s) == s,
    decreases s.len(),
{
    if s.len() > 0 {
        let front = s.drop_last();
        assert forall|i: int| 0 < i < front.len() implies front[i - 1] != #[trigger] front[i] by {
            assert(front[i] == s[i]);
            assert(front[i - 1] == s[i - 1]);
        }
        lemma_dedup_keeps_separated(front);
        assert(front.push(s.last()) =~= s);
        if s.len() >= 2 {
            assert(s[s.len() - 2] != s[s.len() - 1]);
        }
    }
}

/// A run of equal items collapses to one: an item that repeats the last item of a
/// sequence adds nothing.
pub proof fn lemma_dedup_collapses_repeat(s: Seq<(Seq<char>, Seq<char>)>)
    requires
        s.len() > 0,
    ensures
        dedup_adjacent(s.push(s.last())) == dedup_adjacent(s),
{
    let longer = s.push(s.last());
    assert(longer.drop_last() =~= s);
    assert(longer[longer.len() - 2] == s.last());
}

/// Deduplication invents nothing: each item that it keeps is an item of the input.
pub proof fn lemma_dedup_keeps_items<T>(s: Seq<T>)
    ensures
        forall|i: int|
            0 <= i < dedup_adjacent(s).len() ==> s.contains(#[trigger] dedup_adjacent(s)[i]),
    decreases s.len(),
{
    if s.len() > 0 {
        let front = s.drop_last();
        let kept = dedup_adjacent(s);
        let earlier = dedup_adjacent(front);
        lemma_dedup_keeps_items(front);
        assert forall|i: int| 0 <= i < kept.len() implies s.contains(#[trigger] kept[i]) by {
            if i < earlier.len() {
                assert(kept[i] == earlier[i]);
                assert(front.contains(earlier[i]));
                let j = choose|j: int| 0 <= j < front.len() && front[j] == earlier[i];
                assert(s[j] == kept[i]);
            } else {
                assert(kept[i] == s[s.len() - 1]);
            }
        }
    }
}

/// Every match that is found has an old path with as many segments as the mask: a
/// candidate with more or fewer segments is never among the matches.
pub proof fn lemma_found_fit_mask(
    mask_segs: Seq<Seq<char>>,
    new_mask: Seq<char>,
    candidates: Seq<Seq<char>>,
)
    ensures
        forall|i: int|
            0 <= i < dedup_adjacent(collected(mask_segs, new_mask, candidates)).len() ==> segments(
                (#[trigger] dedup_adjacent(collected(mask_segs, new_mask, candidates))[i]).0,
            ).len() == mask_segs.len(),
{
    let all = collected(mask_segs, new_mask, candidates);
    let kept = dedup_adjacent(all);
    lemma_collected_fit_mask(mask_segs, new_mask, candidates);
    lemma_dedup_keeps_items(all);
    assert forall|i: int| 0 <= i < kept.len() implies segments((#[trigger] kept[i]).0).len()
        == mask_segs.len() by {
        assert(all.contains(kept[i]));
        let j = choose|j: int| 0 <= j < all.len() && all[j] == kept[i];
        assert(segments(all[j].0).len() == mask_segs.len());
    }
}

} // verus!
