//! What this crate takes on trust from `csv`: nothing here is proved.

use crate::symbols::texts;
use vstd::prelude::*;

verus! {

/// `csv::Error`, the reason a row was not read; opaque to the verifier.
#[verifier::external_type_specification]
#[verifier::external_body]
pub struct ExCsvError(csv::Error);

/// What a `csv::Reader` with default settings, but for the trimming, reads
/// from the bytes `data`: the rows after the first, which is taken for the
/// headings, each as its fields, or as nothing where the reader reports an
/// error. With `trim` the reader is set to trim headings and fields.
pub uninterp spec fn csv_reading(data: Seq<u8>, trim: bool) -> Seq<Option<Seq<Seq<char>>>>;

/// A row as the reader gave it, as mathematics.
pub open spec fn row_texts(row: Result<Vec<String>, csv::Error>) -> Option<Seq<Seq<char>>> {
    match row {
        Ok(fields) => Some(texts(fields@)),
        Err(_) => None,
    }
}

/// `csv::ReaderBuilder::from_reader` on bytes in memory and
/// `csv::Reader::into_records`: the outcome depends on the bytes and the
/// trimming alone and is named by [`csv_reading`]; nothing more is claimed
/// of it.
#[verifier::external_body]
pub(crate) fn read_csv(data: &[u8], trim: bool) -> (rows: Vec<Result<Vec<String>, csv::Error>>)
    ensures
        rows@.len() == csv_reading(data@, trim).len(),
        forall|k: int|
            0 <= k < rows@.len() ==> row_texts(#[trigger] rows@[k]) == csv_reading(data@, trim)[k],
{
    csv::ReaderBuilder::new()
        .trim(if trim { csv::Trim::All } else { csv::Trim::None })
        .from_reader(data)
        .into_records()
        .map(|row| row.map(|record| record.iter().map(String::from).collect()))
        .collect()
}

} // verus!
