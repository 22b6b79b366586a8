use vstd::prelude::*;
use crate::compress::{hoco, run_starts, starts_run};
use crate::decompress::{expand, repeat};

verus! {

/// No two adjacent symbols of `s` are equal.
pub open spec fn no_adjacent_duplicates(s: Seq<u8>) -> bool {
    forall|i: int| 0 < i < s.len() ==> #[trigger] s[i] != s[i - 1]
}

/// The compression of a non-empty sequence is non-empty and ends with the
/// sequence's last symbol.
pub proof fn lemma_hoco_last(s: Seq<u8>)
    requires
        s.len() > 0,
    ensures
        hoco(s).len() > 0,
        hoco(s).last() == s.last(),
    decreases s.len(),
{
    if !starts_run(s, s.len() - 1) {
        lemma_hoco_last(s.drop_last());
    }
}

/// The run start offsets pair up with the compressed symbols, begin at 0,
/// lie inside the sequence and strictly increase.
pub proof fn lemma_run_starts(s: Seq<u8>)
    ensures
        run_starts(s).len() == hoco(s).len(),
        run_starts(s).len() <= s.len(),
        s.len() > 0 ==> run_starts(s).len() > 0 && run_starts(s)[0] == 0,
        forall|j: int| 0 <= j < run_starts(s).len() ==> 0 <= #[trigger] run_starts(s)[j] < s.len(),
        forall|j: int| 0 < j < run_starts(s).len() ==> run_starts(s)[j - 1] < #[trigger] run_starts(s)[j],
    decreases s.len(),
{
    if s.len() > 0 {
        lemma_run_starts(s.drop_last());
    }
}

/// No two adjacent symbols of a compressed sequence are equal.
pub proof fn lemma_hoco_no_adjacent_duplicates(s: Seq<u8>)
    ensures
        no_adjacent_duplicates(hoco(s)),
    decreases s.len(),
{
    if s.len() > 0 {
        let t = s.drop_last();
        lemma_hoco_no_adjacent_duplicates(t);
        if starts_run(s, s.len() - 1) && t.len() > 0 {
            lemma_hoco_last(t);
        }
    }
}

/// A sequence without adjacent duplicates is its own compression.
pub proof fn lemma_hoco_fixed_point(s: Seq<u8>)
    requires
        no_adjacent_duplicates(s),
    ensures
        hoco(s) == s,
    decreases s.len(),
{
    if s.len() > 0 {
        let t = s.drop_last();
        assert(no_adjacent_duplicates(t));
        lemma_hoco_fixed_point(t);
        assert(t.push(s.last()) =~= s);
    }
}

/// Compressing an already compressed sequence changes nothing.
pub proof fn lemma_hoco_idempotent(s: Seq<u8>)
    ensures
        hoco(hoco(s)) == hoco(s),
{
    lemma_hoco_no_adjacent_duplicates(s);
    lemma_hoco_fixed_point(hoco(s));
}

/// Compression never lengthens a sequence, and keeps its length exactly when
/// the sequence has no adjacent duplicates.
pub proof fn lemma_hoco_length(s: Seq<u8>)
    ensures
        hoco(s).len() <= s.len(),
        hoco(s).len() == s.len() <==> no_adjacent_duplicates(s),
    decreases s.len(),
{
    if s.len() > 0 {
        let t = s.drop_last();
        lemma_hoco_length(t);
        if no_adjacent_duplicates(s) {
            lemma_hoco_fixed_point(s);
        }
        if !no_adjacent_duplicates(t) {
            let i = choose|i: int| 0 < i < t.len() && #[trigger] t[i] == t[i - 1];
            assert(0 < i < s.len() && s[i] == s[i - 1]);
        } else if !no_adjacent_duplicates(s) {
            let i = choose|i: int| 0 < i < s.len() && #[trigger] s[i] == s[i - 1];
            if i < t.len() {
                assert(t[i] == t[i - 1]);
            }
            assert(!starts_run(s, s.len() - 1));
        }
    }
}

/// Compression of the empty sequence is empty, and its map with the length
/// appended is `[0]`.
pub proof fn lemma_hoco_empty()
    ensures
        hoco(Seq::empty()) == Seq::<u8>::empty(),
        run_starts(Seq::empty()).push(0) == seq![0int],
{
    assert(run_starts(Seq::empty()).push(0) =~= seq![0int]);
}

/// Repeating each compressed symbol over its run, as the run start offsets
/// followed by the sequence's length give it, rebuilds the sequence.
pub proof fn lemma_round_trip(s: Seq<u8>)
    ensures
        expand(hoco(s), run_starts(s).push(s.len() as int)) == s,
    decreases s.len(),
{
    if s.len() > 0 {
        let n = s.len() as int;
        let t = s.drop_last();
        lemma_round_trip(t);
        lemma_run_starts(t);
        let c = hoco(t);
        let r = run_starts(t);
        if starts_run(s, n - 1) {
            let m = r.push(n - 1).push(n);
            assert(hoco(s).drop_last() =~= c);
            assert(m.drop_last() =~= r.push(n - 1));
            assert(repeat(s.last(), 1) =~= seq![s.last()]);
            assert(t + seq![s.last()] =~= s);
        } else {
            lemma_hoco_last(t);
            let k = c.len() as int;
            let m_old = r.push(n - 1);
            let m_new = r.push(n);
            assert(m_old.drop_last() =~= r);
            assert(m_new.drop_last() =~= r);
            let len = n - 1 - r[k - 1];
            assert(repeat(c.last(), len + 1) =~= repeat(c.last(), len).push(c.last()));
            assert(t.push(s.last()) =~= s);
        }
    }
}

} // verus!
