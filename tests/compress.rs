use homopolymer_compress::{
    compress_with_inversion_map, homopolymer_compress, homopolymer_compress_with_hodeco_map,
    homopolymer_decompress,
};
use std::iter;

#[test]
fn test_homopolymer_compression() {
    let input = b"ACAARRRTGGGTGTJASAAAI";
    let expected = Vec::from_iter(b"ACARTGTGTJASAI".iter().cloned());
    let actual = homopolymer_compress(input);
    assert_eq!(expected, actual);
}

#[test]
fn test_hodeco_mapping() {
    let input = b"ACAARRRTGGGTGTJASAAAI";
    let expected = Vec::from_iter(b"ACARTGTGTJASAI".iter().cloned());
    let (actual, mut hodeco_mapping): (Vec<_>, Vec<_>) =
        homopolymer_compress_with_hodeco_map(input).into_iter().unzip();
    hodeco_mapping.push(input.len());
    let hodeco_mapping = hodeco_mapping;
    assert_eq!(expected, actual);
    let hodeco: Vec<_> = actual
        .into_iter()
        .zip(hodeco_mapping.windows(2))
        .flat_map(|(item, count)| iter::repeat(item).take(count[1] - count[0]))
        .collect();
    assert_eq!(hodeco, input);
}

#[test]
fn concrete_inversion_map() {
    let input = b"ACAARRRTGGGTGTJASAAAI";
    let (symbols, map) = compress_with_inversion_map(input);
    assert_eq!(symbols, b"ACARTGTGTJASAI".to_vec());
    assert_eq!(map, vec![0, 1, 2, 4, 7, 8, 11, 12, 13, 14, 15, 16, 17, 20, 21]);
    assert_eq!(homopolymer_decompress(&symbols, &map), input.to_vec());
}

#[test]
fn hodeco_pairs_hold_run_starts() {
    let pairs = homopolymer_compress_with_hodeco_map(b"aabccc");
    assert_eq!(pairs, vec![(b'a', 0), (b'b', 2), (b'c', 3)]);
}

#[test]
fn compressing_twice_changes_nothing() {
    let input = b"GGGATTTACCAGG";
    let once = homopolymer_compress(input);
    let twice = homopolymer_compress(&once);
    assert_eq!(once, b"GATACAG".to_vec());
    assert_eq!(once, twice);
}

#[test]
fn no_adjacent_equal_symbols_after_compression() {
    let output = homopolymer_compress(b"xxyyyzzxxxxxyz");
    assert_eq!(output, b"xyzxyz".to_vec());
    for pair in output.windows(2) {
        assert_ne!(pair[0], pair[1]);
    }
}

#[test]
fn round_trip_rebuilds_input() {
    let input = b"TTTTTTCGCGGGGAAAN";
    let (symbols, map) = compress_with_inversion_map(input);
    assert_eq!(homopolymer_decompress(&symbols, &map), input.to_vec());
}

#[test]
fn length_never_grows() {
    let with_duplicates = b"ACCGT";
    assert_eq!(homopolymer_compress(with_duplicates).len(), 4);
    let without_duplicates = b"ACGTA";
    assert_eq!(homopolymer_compress(without_duplicates), without_duplicates.to_vec());
}

#[test]
fn empty_input() {
    assert_eq!(homopolymer_compress(b""), Vec::<u8>::new());
    assert_eq!(homopolymer_compress_with_hodeco_map(b""), Vec::<(u8, usize)>::new());
    let (symbols, map) = compress_with_inversion_map(b"");
    assert_eq!(symbols, Vec::<u8>::new());
    assert_eq!(map, vec![0]);
    assert_eq!(homopolymer_decompress(&symbols, &map), Vec::<u8>::new());
}

#[test]
fn single_symbol_and_single_run() {
    assert_eq!(homopolymer_compress(b"Q"), b"Q".to_vec());
    assert_eq!(homopolymer_compress(b"AAAAAAA"), b"A".to_vec());
    let (symbols, map) = compress_with_inversion_map(b"AAAAAAA");
    assert_eq!(symbols, b"A".to_vec());
    assert_eq!(map, vec![0, 7]);
}

#[test]
fn decompress_repeats_by_offset_differences() {
    let output = homopolymer_decompress(b"xy", &[3, 5, 6]);
    assert_eq!(output, b"xxy".to_vec());
}
