//! The mathematical model: how a sequence of characters splits into
//! maximal single-class runs, and the laws that splitting obeys.
use vstd::prelude::*;

use crate::whitespace::is_white_space;

verus! {

/// Length of the longest prefix of `s` whose characters all have class `ws`
/// (`true` for whitespace, `false` for everything else).
pub open spec fn run_len(s: Seq<char>, ws: bool) -> nat
    decreases s.len(),
{
    if s.len() == 0 || is_white_space(s[0]) != ws {
        0
    } else {
        1 + run_len(s.drop_first(), ws)
    }
}

/// The segments of `s`, left to right: each is a class (`true` for
/// whitespace) and a maximal non-empty run of characters of that class.
pub open spec fn segments(s: Seq<char>) -> Seq<(bool, Seq<char>)>
    decreases s.len(),
{
    if s.len() == 0 {
        seq![]
    } else {
        let ws = is_white_space(s[0]);
        let n = run_len(s, ws);
        if 0 < n <= s.len() {
            seq![(ws, s.take(n as int))] + segments(s.skip(n as int))
        } else {
            seq![]
        }
    }
}

/// The concatenation of a sequence of texts.
pub open spec fn concat(parts: Seq<Seq<char>>) -> Seq<char>
    decreases parts.len(),
{
    if parts.len() == 0 {
        seq![]
    } else {
        parts[0] + concat(parts.drop_first())
    }
}

/// The texts of a sequence of segments, classes dropped.
pub open spec fn texts(segs: Seq<(bool, Seq<char>)>) -> Seq<Seq<char>> {
    segs.map_values(|p: (bool, Seq<char>)| p.1)
}

/// Position in the input at which segment `i` starts.
pub open spec fn offset(segs: Seq<(bool, Seq<char>)>, i: int) -> nat {
    concat(texts(segs.take(i))).len()
}

/// What `run_len` counts: a prefix of matching characters, stopped by the end
/// of `s` or by a character of the other class.
pub proof fn lemma_run_len(s: Seq<char>, ws: bool)
    ensures
        run_len(s, ws) <= s.len(),
        forall|j: int| 0 <= j < run_len(s, ws) ==> is_white_space(#[trigger] s[j]) == ws,
        run_len(s, ws) < s.len() ==> is_white_space(s[run_len(s, ws) as int]) != ws,
    decreases s.len(),
{
    if s.len() > 0 && is_white_space(s[0]) == ws {
        lemma_run_len(s.drop_first(), ws);
        assert forall|j: int| 0 <= j < run_len(s, ws) implies is_white_space(#[trigger] s[j])
            == ws by {
            if j > 0 {
                assert(s[j] == s.drop_first()[j - 1]);
            }
        }
    }
}

/// A prefix of `i` matching characters followed by the end or by a character
/// of the other class is exactly what `run_len` counts.
pub proof fn lemma_run_len_is(s: Seq<char>, ws: bool, i: int)
    requires
        0 <= i <= s.len(),
        forall|j: int| 0 <= j < i ==> is_white_space(#[trigger] s[j]) == ws,
        i == s.len() || is_white_space(s[i]) != ws,
    ensures
        run_len(s, ws) == i,
    decreases i,
{
    if i > 0 {
        let t = s.drop_first();
        assert forall|j: int| 0 <= j < i - 1 implies is_white_space(#[trigger] t[j]) == ws by {
            assert(t[j] == s[j + 1]);
        }
        if i < s.len() {
            assert(t[i - 1] == s[i]);
        }
        lemma_run_len_is(t, ws, i - 1);
    }
}

/// One step of splitting: a non-empty `s` starts with its first run, and the
/// rest is split in the same way.
pub proof fn lemma_segments_step(s: Seq<char>)
    requires
        s.len() > 0,
    ensures
        run_len(s, is_white_space(s[0])) > 0,
        segments(s) == seq![
            (is_white_space(s[0]), s.take(run_len(s, is_white_space(s[0])) as int)),
        ] + segments(s.skip(run_len(s, is_white_space(s[0])) as int)),
{
    let ws = is_white_space(s[0]);
    lemma_run_len(s, ws);
    assert(run_len(s, ws) == 1 + run_len(s.drop_first(), ws));
}

/// Only the empty input has no segments.
pub proof fn lemma_segments_empty(s: Seq<char>)
    ensures
        segments(s).len() == 0 <==> s.len() == 0,
{
    if s.len() > 0 {
        lemma_segments_step(s);
    }
}

/// The first segment of a non-empty input has the class of its first
/// character, and the segments after it are those of the rest.
proof fn lemma_first_segment(s: Seq<char>)
    requires
        s.len() > 0,
    ensures
        segments(s).len() > 0,
        segments(s)[0] == (
            is_white_space(s[0]),
            s.take(run_len(s, is_white_space(s[0])) as int),
        ),
        segments(s).drop_first() == segments(s.skip(run_len(s, is_white_space(s[0])) as int)),
{
    lemma_segments_step(s);
    let n = run_len(s, is_white_space(s[0]));
    assert(segments(s).drop_first() =~= segments(s.skip(n as int)));
}

/// Where segment `i` starts, counted from the second segment on.
proof fn lemma_offset_shift(segs: Seq<(bool, Seq<char>)>, i: int)
    requires
        1 <= i <= segs.len(),
    ensures
        offset(segs, i) == segs[0].1.len() + offset(segs.drop_first(), i - 1),
{
    let a = texts(segs.take(i));
    assert(a.drop_first() =~= texts(segs.drop_first().take(i - 1)));
    assert(a[0] == segs[0].1);
}

/// Segment `i + 1` starts where segment `i` ends.
proof fn lemma_offset_next(segs: Seq<(bool, Seq<char>)>, i: int)
    requires
        0 <= i < segs.len(),
    ensures
        offset(segs, 0) == 0,
        offset(segs, i + 1) == offset(segs, i) + segs[i].1.len(),
    decreases i,
{
    assert(texts(segs.take(0)) =~= Seq::<Seq<char>>::empty());
    lemma_offset_shift(segs, i + 1);
    if i == 0 {
        assert(texts(segs.drop_first().take(0)) =~= Seq::<Seq<char>>::empty());
    } else {
        lemma_offset_shift(segs, i);
        lemma_offset_next(segs.drop_first(), i - 1);
    }
}

/// Concatenating the texts of the segments of `s`, in order, gives back `s`.
pub proof fn lemma_round_trip(s: Seq<char>)
    ensures
        concat(texts(segments(s))) == s,
    decreases s.len(),
{
    if s.len() > 0 {
        lemma_first_segment(s);
        let n = run_len(s, is_white_space(s[0]));
        let segs = segments(s);
        lemma_round_trip(s.skip(n as int));
        assert(texts(segs).drop_first() =~= texts(segments(s.skip(n as int))));
        assert(s =~= s.take(n as int) + s.skip(n as int));
    } else {
        assert(segments(s).len() == 0);
    }
}

/// Two neighbouring segments never have the same class.
pub proof fn lemma_alternation(s: Seq<char>)
    ensures
        forall|i: int|
            0 <= i < segments(s).len() - 1 ==> #[trigger] segments(s)[i].0 != segments(s)[i
                + 1].0,
    decreases s.len(),
{
    if s.len() > 0 {
        lemma_first_segment(s);
        lemma_run_len(s, is_white_space(s[0]));
        let n = run_len(s, is_white_space(s[0]));
        let t = s.skip(n as int);
        lemma_alternation(t);
        let segs = segments(s);
        assert forall|i: int| 0 <= i < segs.len() - 1 implies #[trigger] segs[i].0 != segs[i
            + 1].0 by {
            assert(segs[i + 1] == segments(t)[i]);
            if i == 0 {
                lemma_first_segment(t);
                assert(t[0] == s[n as int]);
            } else {
                assert(segs[i] == segments(t)[i - 1]);
            }
        }
    }
}

/// Each segment is a non-empty run of its class that stands in `s` at its
/// offset, and the character right after it, if any, is of the other class.
pub proof fn lemma_maximality(s: Seq<char>)
    ensures
        forall|i: int|
            0 <= i < segments(s).len() ==> {
                let seg = #[trigger] segments(s)[i];
                let end = offset(segments(s), i + 1);
                &&& seg.1.len() > 0
                &&& forall|j: int| 0 <= j < seg.1.len() ==> is_white_space(#[trigger] seg.1[j])
                    == seg.0
                &&& end == offset(segments(s), i) + seg.1.len() <= s.len()
                &&& s.subrange(offset(segments(s), i) as int, end as int) == seg.1
                &&& end < s.len() ==> is_white_space(s[end as int]) != seg.0
            },
    decreases s.len(),
{
    if s.len() > 0 {
        let ws = is_white_space(s[0]);
        lemma_first_segment(s);
        lemma_run_len(s, ws);
        let n = run_len(s, ws);
        let t = s.skip(n as int);
        lemma_maximality(t);
        let segs = segments(s);
        assert forall|i: int| 0 <= i < segs.len() implies {
            let seg = #[trigger] segs[i];
            let end = offset(segs, i + 1);
            &&& seg.1.len() > 0
            &&& forall|j: int| 0 <= j < seg.1.len() ==> is_white_space(#[trigger] seg.1[j])
                == seg.0
            &&& end == offset(segs, i) + seg.1.len() <= s.len()
            &&& s.subrange(offset(segs, i) as int, end as int) == seg.1
            &&& end < s.len() ==> is_white_space(s[end as int]) != seg.0
        } by {
            lemma_offset_shift(segs, i + 1);
            lemma_offset_next(segs, i);
            if i == 0 {
                assert(texts(segs.take(0)) =~= Seq::<Seq<char>>::empty());
                assert(offset(segs.drop_first(), 0) == 0) by {
                    assert(texts(segs.drop_first().take(0)) =~= Seq::<Seq<char>>::empty());
                }
                assert(s.subrange(0, n as int) =~= s.take(n as int));
            } else {
                lemma_offset_shift(segs, i);
                let k = i - 1;
                let rest = segments(t);
                assert(segs[i] == rest[k]);
                assert(segs.drop_first() == rest);
                let a = offset(rest, k) as int;
                let b = offset(rest, k + 1) as int;
                assert(s.subrange(n + a, n + b) =~= t.subrange(a, b));
                if n + b < s.len() {
                    assert(s[n + b] == t[b]);
                }
            }
        }
    }
}

} // verus!
