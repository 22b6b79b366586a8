use vstd::prelude::*;
use crate::decompress::{expand, offsets, valid_map};
use crate::laws::{
    lemma_hoco_length, lemma_hoco_no_adjacent_duplicates, lemma_round_trip, lemma_run_starts,
    no_adjacent_duplicates,
};

verus! {

/// Whether position `i` of `s` starts a new run, i.e. it is the first symbol
/// or differs from the symbol before it.
pub open spec fn starts_run(s: Seq<u8>, i: int) -> bool {
    0 <= i < s.len() && (i == 0 || s[i] != s[i - 1])
}

/// The homopolymer compression of `s`: one symbol for each maximal run of
/// equal adjacent symbols, in the order of the runs.
pub open spec fn hoco(s: Seq<u8>) -> Seq<u8>
    decreases s.len(),
{
    if s.len() == 0 {
        Seq::empty()
    } else if starts_run(s, s.len() - 1) {
        hoco(s.drop_last()).push(s.last())
    } else {
        hoco(s.drop_last())
    }
}

/// The start offsets in `s` of its maximal runs, in order: one entry for each
/// symbol of `hoco(s)`.
pub open spec fn run_starts(s: Seq<u8>) -> Seq<int>
    decreases s.len(),
{
    if s.len() == 0 {
        Seq::empty()
    } else if starts_run(s, s.len() - 1) {
        run_starts(s.drop_last()).push(s.len() - 1)
    } else {
        run_starts(s.drop_last())
    }
}

/// Homopolymer compress the given sequence.
///
/// A symbol is kept exactly when it differs from the last kept symbol, which
/// is always the symbol right before it in the input.
pub fn homopolymer_compress(input: &[u8]) -> (output: Vec<u8>)
    ensures
        output@ == hoco(input@),
        no_adjacent_duplicates(output@),
        output@.len() <= input@.len(),
{
    let mut output: Vec<u8> = Vec::new();
    let mut last_emitted: Option<u8> = None;
    let mut i: usize = 0;
    while i < input.len()
        invariant
            i <= input.len(),
            output@ == hoco(input@.take(i as int)),
            i == 0 <==> last_emitted.is_none(),
            i > 0 ==> last_emitted == Some(input@[i - 1]),
        decreases input.len() - i,
    {
        let item = input[i];
        proof {
            assert(input@.take(i + 1).drop_last() =~= input@.take(i as int));
        }
        match last_emitted {
            Some(previous) if previous == item => {},
            _ => {
                output.push(item);
                last_emitted = Some(item);
            },
        }
        i = i + 1;
    }
    proof {
        assert(input@.take(input.len() as int) =~= input@);
        lemma_hoco_no_adjacent_duplicates(input@);
        lemma_hoco_length(input@);
    }
    output
}

/// Homopolymer compress the given sequence and record, beside each kept
/// symbol, the offset in the input of the run it stands for.
///
/// Appending the input's length to the offsets gives the map that
/// homopolymer decompresses the output.
pub fn homopolymer_compress_with_hodeco_map(input: &[u8]) -> (output: Vec<(u8, usize)>)
    ensures
        output@.len() == hoco(input@).len(),
        output@.len() == run_starts(input@).len(),
        forall|j: int|
            0 <= j < output@.len() ==> output@[j].0 == hoco(input@)[j] && output@[j].1
                == run_starts(input@)[j],
{
    let mut output: Vec<(u8, usize)> = Vec::new();
    let mut last_emitted: Option<u8> = None;
    let mut i: usize = 0;
    while i < input.len()
        invariant
            i <= input.len(),
            output@.len() == hoco(input@.take(i as int)).len(),
            output@.len() == run_starts(input@.take(i as int)).len(),
            forall|j: int|
                0 <= j < output@.len() ==> output@[j].0 == hoco(input@.take(i as int))[j]
                    && output@[j].1 == run_starts(input@.take(i as int))[j],
            i == 0 <==> last_emitted.is_none(),
            i > 0 ==> last_emitted == Some(input@[i - 1]),
        decreases input.len() - i,
    {
        let item = input[i];
        proof {
            assert(input@.take(i + 1).drop_last() =~= input@.take(i as int));
        }
        match last_emitted {
            Some(previous) if previous == item => {},
            _ => {
                output.push((item, i));
                last_emitted = Some(item);
            },
        }
        i = i + 1;
    }
    proof {
        assert(input@.take(input.len() as int) =~= input@);
    }
    output
}

/// Homopolymer compress the given sequence and build its inversion map: the
/// run start offsets followed by the input's length.
pub fn compress_with_inversion_map(input: &[u8]) -> (output: (Vec<u8>, Vec<usize>))
    ensures
        output.0@ == hoco(input@),
        offsets(output.1@) == run_starts(input@).push(input@.len() as int),
        valid_map(output.0@.len() as int, output.1@),
        expand(output.0@, offsets(output.1@)) == input@,
{
    let pairs = homopolymer_compress_with_hodeco_map(input);
    let mut symbols: Vec<u8> = Vec::new();
    let mut map: Vec<usize> = Vec::new();
    let mut j: usize = 0;
    while j < pairs.len()
        invariant
            j <= pairs@.len(),
            symbols@.len() == j,
            map@.len() == j,
            forall|k: int| 0 <= k < j ==> symbols@[k] == pairs@[k].0 && map@[k] == pairs@[k].1,
        decreases pairs.len() - j,
    {
        symbols.push(pairs[j].0);
        map.push(pairs[j].1);
        j = j + 1;
    }
    map.push(input.len());
    proof {
        assert(symbols@ =~= hoco(input@));
        assert(offsets(map@) =~= run_starts(input@).push(input@.len() as int));
        lemma_run_starts(input@);
        lemma_round_trip(input@);
        assert forall|i: int| 0 < i < map@.len() implies map@[i - 1] <= #[trigger] map@[i] by {
            assert(offsets(map@)[i] == map@[i] as int);
            assert(offsets(map@)[i - 1] == map@[i - 1] as int);
        }
    }
    (symbols, map)
}

} // verus!
