use vstd::prelude::*;
use crate::direction::{Direction, is_rev};

verus! {

/// Every rank in `s` can be raised by one without leaving `u8`.
pub open spec fn ranks_fit(s: Seq<u8>) -> bool {
    forall|i: int| 0 <= i < s.len() ==> s[i] < 255
}

/// One left-to-right merge pass: an equal adjacent pair becomes one tile of
/// the next rank, and a tile made by a merge is not merged again in the pass.
pub open spec fn merge_front(s: Seq<u8>) -> Seq<u8>
    decreases s.len(),
{
    if s.len() < 2 {
        s
    } else if s[0] == s[1] {
        seq![(s[0] + 1) as u8] + merge_front(s.subrange(2, s.len() as int))
    } else {
        seq![s[0]] + merge_front(s.subrange(1, s.len() as int))
    }
}

/// Merging a line from its near end, or, when `rev`, from its far end.
pub open spec fn merge_toward(s: Seq<u8>, rev: bool) -> Seq<u8> {
    if rev {
        merge_front(s.reverse()).reverse()
    } else {
        merge_front(s)
    }
}

/// Merging never lengthens a line and keeps at least one tile of a
/// non-empty line.
pub proof fn lemma_merge_front_len(s: Seq<u8>)
    ensures
        merge_front(s).len() <= s.len(),
        s.len() > 0 ==> merge_front(s).len() > 0,
    decreases s.len(),
{
    if s.len() >= 2 {
        if s[0] == s[1] {
            lemma_merge_front_len(s.subrange(2, s.len() as int));
        } else {
            lemma_merge_front_len(s.subrange(1, s.len() as int));
        }
    }
}

pub proof fn lemma_merge_toward_len(s: Seq<u8>, rev: bool)
    ensures
        merge_toward(s, rev).len() <= s.len(),
        s.len() > 0 ==> merge_toward(s, rev).len() > 0,
{
    lemma_merge_front_len(s);
    lemma_merge_front_len(s.reverse());
}

fn merge_front_vec(s: &Vec<u8>) -> (r: Vec<u8>)
    requires
        ranks_fit(s@),
    ensures
        r@ == merge_front(s@),
{
    let mut out: Vec<u8> = Vec::new();
    let mut i: usize = 0;
    assert(s@.subrange(0, s.len() as int) =~= s@);
    assert(out@ + merge_front(s@) =~= merge_front(s@));
    while i < s.len()
        invariant
            i <= s.len(),
            ranks_fit(s@),
            out@ + merge_front(s@.subrange(i as int, s.len() as int)) == merge_front(s@),
        decreases s.len() - i,
    {
        let ghost rest = s@.subrange(i as int, s.len() as int);
        let ghost before = out@;
        if i + 1 < s.len() && s[i] == s[i + 1] {
            assert(rest.subrange(2, rest.len() as int) =~= s@.subrange(i + 2, s.len() as int));
            out.push(s[i] + 1);
            i = i + 2;
            assert(before + merge_front(rest) =~= out@ + merge_front(
                s@.subrange(i as int, s.len() as int),
            ));
        } else {
            assert(rest.subrange(1, rest.len() as int) =~= s@.subrange(i + 1, s.len() as int));
            out.push(s[i]);
            i = i + 1;
            if i < s.len() {
                assert(before + merge_front(rest) =~= out@ + merge_front(
                    s@.subrange(i as int, s.len() as int),
                ));
            } else {
                assert(rest =~= seq![s@[i - 1]]);
                assert(s@.subrange(i as int, s.len() as int) =~= Seq::<u8>::empty());
                assert(before + merge_front(rest) =~= out@ + merge_front(
                    s@.subrange(i as int, s.len() as int),
                ));
            }
        }
    }
    assert(s@.subrange(i as int, s.len() as int) =~= Seq::<u8>::empty());
    assert(out@ + Seq::<u8>::empty() =~= out@);
    out
}

fn reversed(s: &Vec<u8>) -> (r: Vec<u8>)
    ensures
        r@ == s@.reverse(),
{
    let mut out: Vec<u8> = Vec::new();
    let mut i: usize = s.len();
    while i > 0
        invariant
            i <= s.len(),
            out@.len() == s.len() - i,
            forall|j: int| 0 <= j < out@.len() ==> out@[j] == s@[s.len() - 1 - j],
        decreases i,
    {
        i = i - 1;
        out.push(s[i]);
    }
    assert(out@ =~= s@.reverse());
    out
}

/// Merges one line of tile ranks toward the origin of `dir`: from the near
/// end for Up and Left, from the far end for Down and Right.
pub fn merge_line(line: &Vec<u8>, dir: Direction) -> (r: Vec<u8>)
    requires
        ranks_fit(line@),
    ensures
        r@ == merge_toward(line@, is_rev(dir)),
{
    if dir.is_dir_rev() {
        let rev = reversed(line);
        let merged = merge_front_vec(&rev);
        reversed(&merged)
    } else {
        merge_front_vec(line)
    }
}

} // verus!
