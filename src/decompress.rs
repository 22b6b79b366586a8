use vstd::prelude::*;

verus! {

/// `count` copies of `symbol`.
pub open spec fn repeat(symbol: u8, count: int) -> Seq<u8> {
    Seq::new(count as nat, |_k: int| symbol)
}

/// Homopolymer decompression: the `i`-th symbol repeated
/// `map[i + 1] - map[i]` times, for each `i`, all concatenated.
pub open spec fn expand(symbols: Seq<u8>, map: Seq<int>) -> Seq<u8>
    decreases symbols.len(),
{
    if symbols.len() == 0 {
        Seq::empty()
    } else {
        expand(symbols.drop_last(), map.drop_last()) + repeat(
            symbols.last(),
            map.last() - map[map.len() - 2],
        )
    }
}

/// A map's offsets as integers.
pub open spec fn offsets(map: Seq<usize>) -> Seq<int> {
    map.map_values(|x: usize| x as int)
}

/// A map fit to decompress `n` symbols: one offset more than symbols, and
/// the offsets never decrease.
pub open spec fn valid_map(n: int, map: Seq<usize>) -> bool {
    &&& map.len() == n + 1
    &&& forall|i: int| 0 < i < map.len() ==> map[i - 1] <= #[trigger] map[i]
}

/// Homopolymer decompress `symbols` with its map: symbol `i` is repeated
/// `map[i + 1] - map[i]` times.
pub fn homopolymer_decompress(symbols: &[u8], map: &[usize]) -> (output: Vec<u8>)
    requires
        valid_map(symbols@.len() as int, map@),
    ensures
        output@ == expand(symbols@, offsets(map@)),
{
    let ghost om = offsets(map@);
    let mut output: Vec<u8> = Vec::new();
    let mut i: usize = 0;
    while i < symbols.len()
        invariant
            i <= symbols.len(),
            valid_map(symbols@.len() as int, map@),
            om == offsets(map@),
            output@ == expand(symbols@.take(i as int), om.take(i + 1)),
        decreases symbols.len() - i,
    {
        let symbol = symbols[i];
        let start = map[i];
        let end = map[i + 1];
        let ghost before = output@;
        let mut k: usize = start;
        while k < end
            invariant
                start <= k <= end,
                output@ == before + repeat(symbol, k - start),
            decreases end - k,
        {
            output.push(symbol);
            k = k + 1;
            proof {
                assert(repeat(symbol, k - start) =~= repeat(symbol, k - 1 - start).push(symbol));
            }
        }
        proof {
            assert(symbols@.take(i + 1).drop_last() =~= symbols@.take(i as int));
            assert(om.take(i + 2).drop_last() =~= om.take(i + 1));
        }
        i = i + 1;
    }
    proof {
        assert(symbols@.take(symbols.len() as int) =~= symbols@);
        assert(om.take(symbols.len() + 1) =~= om);
    }
    output
}

} // verus!
