use vstd::prelude::*;
use crate::index_of::{index_of, occurs_at, is_first_occurrence, first_occurrence, never_occurs,
    lemma_found_as_first_occurrence, lemma_before_first_occurrence};

verus! {

/// A piece of a buffer, given by its start and end positions.
#[derive(Clone, Copy, Debug, PartialEq, Eq, Structural)]
pub struct Split {
    start: usize,
    end: usize,
}

impl View for Split {
    type V = (int, int);

    closed spec fn view(&self) -> (int, int) {
        (self.start as int, self.end as int)
    }
}

impl Split {
    pub fn new(start: usize, end: usize) -> (s: Self)
        ensures
            s@ == (start as int, end as int),
    {
        Self { start, end }
    }

    pub fn get_slice<'a>(&self, src: &'a [u8]) -> (r: &'a [u8])
        requires
            self@.0 <= self@.1 <= src@.len(),
        ensures
            r@ == src@.subrange(self@.0, self@.1),
    {
        &src[self.start..self.end]
    }

    pub fn len(&self) -> (n: usize)
        requires
            self@.0 <= self@.1,
        ensures
            n == self@.1 - self@.0,
    {
        self.end - self.start
    }
}

/// The non-empty pieces of `content` from `start` on, cut at the leftmost
/// non-overlapping occurrences of `sep`.
pub open spec fn split_pieces(content: Seq<u8>, sep: Seq<u8>, start: int) -> Seq<(int, int)>
    decreases content.len() - start,
{
    if sep.len() == 0 || start < 0 || start >= content.len() {
        Seq::empty()
    } else {
        match first_occurrence(content.subrange(start, content.len() as int), sep) {
            None => seq![(start, content.len() as int)],
            Some(i) => {
                let rest = split_pieces(content, sep, start + i + sep.len());
                if i > 0 { seq![(start, start + i)] + rest } else { rest }
            },
        }
    }
}

/// The pieces of a split are non-empty, lie inside `content` from `start`
/// on, come in order with at least a separator between two of them, and
/// none of them holds the separator.
pub proof fn law_split_pieces(content: Seq<u8>, sep: Seq<u8>, start: int)
    requires
        sep.len() > 0,
        0 <= start,
    ensures
        forall|k: int| 0 <= k < split_pieces(content, sep, start).len() ==> {
            let p = #[trigger] split_pieces(content, sep, start)[k];
            &&& start <= p.0 < p.1 <= content.len()
            &&& never_occurs(content.subrange(p.0, p.1), sep)
        },
        forall|k: int, l: int| 0 <= k < l < split_pieces(content, sep, start).len() ==>
            #[trigger] split_pieces(content, sep, start)[k].1 + sep.len()
                <= #[trigger] split_pieces(content, sep, start)[l].0,
    decreases content.len() - start,
{
    if start >= content.len() {
        return;
    }
    let hay = content.subrange(start, content.len() as int);
    let pieces = split_pieces(content, sep, start);
    match first_occurrence(hay, sep) {
        None => {
            assert(pieces == seq![(start, content.len() as int)]);
            assert forall|m: int| !occurs_at(hay, sep, m) by {
                if occurs_at(hay, sep, m) {
                    crate::index_of::lemma_occurs_has_first(hay, sep, m);
                }
            }
        }
        Some(i) => {
            assert(is_first_occurrence(hay, sep, i));
            let next = start + i + sep.len();
            let rest = split_pieces(content, sep, next);
            law_split_pieces(content, sep, next);
            if i > 0 {
                assert(pieces == seq![(start, start + i)] + rest);
                lemma_before_first_occurrence(hay, sep, i);
                assert(hay.subrange(0, i) =~= content.subrange(start, start + i));
                assert forall|k: int| 0 <= k < pieces.len() implies {
                    let p = #[trigger] pieces[k];
                    &&& start <= p.0 < p.1 <= content.len()
                    &&& never_occurs(content.subrange(p.0, p.1), sep)
                } by {
                    if k > 0 {
                        assert(pieces[k] == rest[k - 1]);
                    }
                }
                assert forall|k: int, l: int| 0 <= k < l < pieces.len() implies
                    #[trigger] pieces[k].1 + sep.len() <= #[trigger] pieces[l].0 by {
                    assert(pieces[l] == rest[l - 1]);
                    if k > 0 {
                        assert(pieces[k] == rest[k - 1]);
                    }
                }
            } else {
                assert(pieces == rest);
            }
        }
    }
}

/// Cuts `content` at the leftmost non-overlapping occurrences of `split` and
/// stores in `output` the non-empty pieces between them, in order. An empty
/// separator never advances through non-empty content, so that case is
/// ruled out; empty content gives no pieces whatever the separator.
pub fn borrowing_split(content: &[u8], split: &[u8], output: &mut Vec<Split>)
    requires
        split@.len() > 0 || content@.len() == 0,
    ensures
        final(output)@.map_values(|s: Split| s@) == split_pieces(content@, split@, 0),
{
    output.clear();
    let mut start: usize = 0;
    while content.len() > start
        invariant_except_break
            split@.len() > 0 || content@.len() == 0,
            start <= content@.len(),
            output@.map_values(|s: Split| s@) + split_pieces(content@, split@, start as int)
                == split_pieces(content@, split@, 0),
        ensures
            output@.map_values(|s: Split| s@) == split_pieces(content@, split@, 0),
        decreases content@.len() - start,
    {
        let haystack = &content[start..content.len()];
        let found = index_of(split, haystack);
        proof {
            lemma_found_as_first_occurrence(haystack@, split@, 0, found);
            assert(haystack@ == content@.subrange(start as int, content@.len() as int));
        }
        let ghost before = output@.map_values(|s: Split| s@);
        match found {
            None => {
                let piece = Split { start, end: content.len() };
                if piece.len() > 0 {
                    output.push(piece);
                }
                assert(output@.map_values(|s: Split| s@) =~= before + split_pieces(content@, split@, start as int));
                break;
            }
            Some(next_split) => {
                let piece = Split { start, end: next_split + start };
                let ghost next = start + next_split + split@.len();
                if piece.len() > 0 {
                    output.push(piece);
                    assert(output@.map_values(|s: Split| s@) =~= before.push((start as int, start + next_split)));
                    assert(split_pieces(content@, split@, start as int)
                        == seq![(start as int, start + next_split)] + split_pieces(content@, split@, next));
                    assert(before + split_pieces(content@, split@, start as int)
                        =~= output@.map_values(|s: Split| s@) + split_pieces(content@, split@, next));
                }
                start = start + next_split + split.len();
            }
        }
    }
}

} // verus!
