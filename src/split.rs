//! The scanner that hands out the segments of a string one at a time, and
//! the two transformers built on it.
use vstd::prelude::*;

use crate::segmentation::{
    concat, lemma_round_trip, lemma_run_len, lemma_run_len_is, lemma_segments_empty, lemma_segments_step,
    run_len, segments, texts,
};
use crate::whitespace::{is_white_space, is_whitespace};

verus! {

/// A maximal run of one class of characters, borrowed from the input.
#[derive(Debug, Clone, PartialEq, Eq, PartialOrd, Ord, Hash)]
pub enum Token<'a> {
    Whitespace(&'a str),
    Other(&'a str),
}

impl<'a> View for Token<'a> {
    /// The class (`true` for whitespace) and the characters of the run.
    type V = (bool, Seq<char>);

    open spec fn view(&self) -> (bool, Seq<char>) {
        match self {
            Token::Whitespace(s) => (true, s@),
            Token::Other(s) => (false, s@),
        }
    }
}

/// The views of a sequence of tokens.
pub open spec fn token_views<'a>(v: Seq<Token<'a>>) -> Seq<(bool, Seq<char>)> {
    v.map_values(|t: Token<'a>| t@)
}

/// The characters of each of a sequence of strings.
pub open spec fn string_views(v: Seq<String>) -> Seq<Seq<char>> {
    v.map_values(|x: String| x@)
}

/// Counts the leading characters of `s` that have class `ws` (`true` for
/// whitespace).
fn class_run_len(s: &str, ws: bool) -> (i: usize)
    ensures
        i == run_len(s@, ws),
{
    broadcast use vstd::string::axiom_spec_iter;

    let n = s.unicode_len();
    let mut i: usize = 0;
    for c in iter: s.chars()
        invariant_except_break
            i == iter.index(),
        invariant
            n == s@.len(),
            iter.seq() == s@,
            i <= n,
            forall|j: int| 0 <= j < i ==> is_white_space(#[trigger] s@[j]) == ws,
        ensures
            i == n || is_white_space(s@[i as int]) != ws,
    {
        if is_whitespace(c) != ws {
            break;
        }
        i = i + 1;
    }
    proof {
        lemma_run_len_is(s@, ws, i as int);
    }
    i
}

/// Splits a string into its whitespace and non-whitespace runs, left to
/// right, keeping every character.
pub struct SplitPreserveWS<'a> {
    string: Option<Token<'a>>,
}

impl<'a> View for SplitPreserveWS<'a> {
    /// The characters not yet handed out.
    type V = Seq<char>;

    closed spec fn view(&self) -> Seq<char> {
        match self.string {
            Some(t) => t@.1,
            None => seq![],
        }
    }
}

impl<'a> SplitPreserveWS<'a> {
    /// The pending run is non-empty and tagged with the class of its first
    /// character.
    pub closed spec fn wf(&self) -> bool {
        match self.string {
            Some(t) => t@.1.len() > 0 && t@.0 == is_white_space(t@.1[0]),
            None => true,
        }
    }

    /// Starts splitting `string`.
    pub fn new(string: &'a str) -> (r: Self)
        ensures
            r.wf(),
            r@ == string@,
    {
        if string.is_empty() {
            SplitPreserveWS { string: None }
        } else if is_whitespace(string.get_char(0)) {
            SplitPreserveWS { string: Some(Token::Whitespace(string)) }
        } else {
            SplitPreserveWS { string: Some(Token::Other(string)) }
        }
    }

    /// Hands out the next segment, or `None` once the input is used up.
    pub fn next(&mut self) -> (r: Option<Token<'a>>)
        requires
            old(self).wf(),
        ensures
            final(self).wf(),
            r is None <==> old(self)@.len() == 0,
            r is None ==> final(self)@ == old(self)@,
            r matches Some(t) ==> t@.1.len() > 0 && old(self)@ == t@.1 + final(self)@,
            r matches Some(t) ==> segments(old(self)@) == seq![t@] + segments(final(self)@),
    {
        let (ws, s): (bool, &'a str) = match &self.string {
            None => {
                return None;
            },
            Some(Token::Whitespace(s)) => (true, *s),
            Some(Token::Other(s)) => (false, *s),
        };
        let n = s.unicode_len();
        let i = class_run_len(s, ws);
        proof {
            lemma_segments_step(s@);
            lemma_run_len(s@, ws);
        }
        let head = s.substring_char(0, i);
        assert(head@ == s@.take(i as int));
        if i < n {
            let rest = s.substring_char(i, n);
            assert(rest@ == s@.skip(i as int));
            assert(rest@[0] == s@[i as int]);
            if ws {
                self.string = Some(Token::Other(rest));
            } else {
                self.string = Some(Token::Whitespace(rest));
            }
        } else {
            assert(s@.skip(i as int) == Seq::<char>::empty());
            self.string = None;
        }
        assert(s@ == head@ + self@);
        if ws {
            Some(Token::Whitespace(head))
        } else {
            Some(Token::Other(head))
        }
    }

    /// Hands out all remaining segments, in order.
    pub fn tokens(self) -> (r: Vec<Token<'a>>)
        requires
            self.wf(),
        ensures
            token_views(r@) == segments(self@),
    {
        let ghost segs = segments(self@);
        let mut it = self;
        let mut out: Vec<Token<'a>> = Vec::new();
        loop
            invariant
                it.wf(),
                segs == segments(self@),
                out.len() <= segs.len(),
                segments(it@) == segs.skip(out.len() as int),
                token_views(out@) == segs.take(out.len() as int),
            decreases it@.len(),
        {
            match it.next() {
                None => {
                    proof {
                        lemma_segments_empty(it@);
                    }
                    assert(token_views(out@) =~= segs);
                    return out;
                },
                Some(t) => {
                    let ghost k = out.len() as int;
                    assert(segs.skip(k)[0] == t@);
                    assert(segs.skip(k + 1) =~= segs.skip(k).drop_first());
                    out.push(t);
                    assert(token_views(out@) =~= segs.take(k + 1));
                },
            }
        }
    }

    /// Hands out the text of each remaining segment, with `f` applied to the
    /// segments of class `target` (`true` for whitespace) and the others
    /// copied unchanged.
    fn map_class<F: Fn(&str) -> String>(self, f: F, target: bool) -> (r: Vec<String>)
        requires
            self.wf(),
            forall|w: &str| #[trigger] f.requires((w,)),
        ensures
            r.len() == segments(self@).len(),
            forall|i: int|
                0 <= i < r.len() && segments(self@)[i].0 != target ==> #[trigger] r[i]@
                    == segments(self@)[i].1,
            forall|i: int|
                #![trigger segments(self@)[i]]
                0 <= i < r.len() && segments(self@)[i].0 == target ==> exists|w: &str|
                    w@ == segments(self@)[i].1 && #[trigger] f.ensures((w,), r[i]),
            (forall|w: &str, o: String| #[trigger] f.ensures((w,), o) ==> o@ == w@) ==> concat(
                string_views(r@),
            ) == self@,
    {
        let ghost segs = segments(self@);
        let ghost input = self@;
        let mut it = self;
        let mut out: Vec<String> = Vec::new();
        loop
            invariant
                forall|w: &str| #[trigger] f.requires((w,)),
                it.wf(),
                out.len() <= segs.len(),
                segs == segments(input),
                input == self@,
                segments(it@) == segs.skip(out.len() as int),
                forall|i: int|
                    0 <= i < out.len() && segs[i].0 != target ==> #[trigger] out[i]@ == segs[i].1,
                forall|i: int|
                    #![trigger segs[i]]
                    0 <= i < out.len() && segs[i].0 == target ==> exists|w: &str|
                        w@ == segs[i].1 && #[trigger] f.ensures((w,), out[i]),
            decreases it@.len(),
        {
            match it.next() {
                None => {
                    proof {
                        lemma_segments_empty(it@);
                        if forall|w: &str, o: String| #[trigger] f.ensures((w,), o) ==> o@ == w@ {
                            assert(string_views(out@) =~= texts(segs));
                            lemma_round_trip(input);
                        }
                    }
                    return out;
                },
                Some(t) => {
                    let ghost k = out.len() as int;
                    assert(segs.skip(k)[0] == t@);
                    assert(segs.skip(k + 1) =~= segs.skip(k).drop_first());
                    let (ws, s): (bool, &str) = match t {
                        Token::Whitespace(s) => (true, s),
                        Token::Other(s) => (false, s),
                    };
                    assert(segs[k] == (ws, s@));
                    let piece = if ws == target {
                        f(s)
                    } else {
                        String::from_str(s)
                    };
                    let ghost prev = out@;
                    out.push(piece);
                    assert forall|i: int|
                        #![trigger segs[i]]
                        0 <= i < out.len() && segs[i].0 == target implies exists|w: &str|
                            w@ == segs[i].1 && #[trigger] f.ensures((w,), out[i]) by {
                        if i == k {
                            assert(s@ == segs[i].1 && f.ensures((s,), out[i]));
                        } else {
                            assert(out[i] == prev[i]);
                        }
                    }
                },
            }
        }
    }

    /// Hands out the text of each remaining segment, with `f` applied to the
    /// non-whitespace ones and the whitespace copied unchanged.
    pub fn map_words<F: Fn(&str) -> String>(self, f: F) -> (r: Vec<String>)
        requires
            self.wf(),
            forall|w: &str| #[trigger] f.requires((w,)),
        ensures
            r.len() == segments(self@).len(),
            forall|i: int|
                0 <= i < r.len() && segments(self@)[i].0 ==> #[trigger] r[i]@ == segments(
                    self@,
                )[i].1,
            forall|i: int|
                0 <= i < r.len() && !segments(self@)[i].0 ==> exists|w: &str|
                    w@ == segments(self@)[i].1 && #[trigger] f.ensures((w,), r[i]),
            (forall|w: &str, o: String| #[trigger] f.ensures((w,), o) ==> o@ == w@) ==> concat(
                string_views(r@),
            ) == self@,
    {
        self.map_class(f, false)
    }

    /// Hands out the text of each remaining segment, with `f` applied to the
    /// whitespace ones and the rest copied unchanged.
    pub fn map_whitespace<F: Fn(&str) -> String>(self, f: F) -> (r: Vec<String>)
        requires
            self.wf(),
            forall|w: &str| #[trigger] f.requires((w,)),
        ensures
            r.len() == segments(self@).len(),
            forall|i: int|
                0 <= i < r.len() && !segments(self@)[i].0 ==> #[trigger] r[i]@ == segments(
                    self@,
                )[i].1,
            forall|i: int|
                0 <= i < r.len() && segments(self@)[i].0 ==> exists|w: &str|
                    w@ == segments(self@)[i].1 && #[trigger] f.ensures((w,), r[i]),
            (forall|w: &str, o: String| #[trigger] f.ensures((w,), o) ==> o@ == w@) ==> concat(
                string_views(r@),
            ) == self@,
    {
        self.map_class(f, true)
    }
}

} // verus!
