use vstd::prelude::*;
use crate::compress::{compress_with_inversion_map, homopolymer_compress, hoco, run_starts};
use crate::decompress::offsets;

verus! {

/// A named sequence as it is read from the input.
pub struct Record {
    pub id: String,
    pub description: Option<String>,
    pub sequence: Vec<u8>,
}

/// A record after compression, with its inversion map when one was asked for.
pub struct CompressedRecord {
    pub id: String,
    pub description: Option<String>,
    pub sequence: Vec<u8>,
    pub hodeco_map: Option<Vec<usize>>,
}

/// The work of one worker on one record: compress its sequence, and build the
/// inversion map when `with_map` holds. The id and description go through
/// unchanged, so that each output record matches its input by id.
pub fn compress_record(record: Record, with_map: bool) -> (output: CompressedRecord)
    ensures
        output.id == record.id,
        output.description == record.description,
        output.sequence@ == hoco(record.sequence@),
        output.hodeco_map.is_some() == with_map,
        output.hodeco_map matches Some(map) ==> offsets(map@) == run_starts(record.sequence@).push(
            record.sequence@.len() as int,
        ),
{
    if with_map {
        let (sequence, map) = compress_with_inversion_map(record.sequence.as_slice());
        CompressedRecord {
            id: record.id,
            description: record.description,
            sequence,
            hodeco_map: Some(map),
        }
    } else {
        let sequence = homopolymer_compress(record.sequence.as_slice());
        CompressedRecord { id: record.id, description: record.description, sequence, hodeco_map: None }
    }
}

} // verus!
