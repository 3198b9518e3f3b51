//! Equivalence across the three codecs: each codec round-trips on its own,
//! and re-encoding a decoded sequence with any other codec yields the same
//! records again.

use vstd::prelude::*;
use crate::TxView;
use crate::error::ErrKind;
use crate::bin_format::{spec_bin_encode, spec_bin_decode, bin_encodable, lemma_bin_round_trip};
use crate::csv_format::{spec_csv_encode, spec_csv_decode, csv_clean, lemma_csv_round_trip};
use crate::text_format::{spec_text_encode, spec_text_decode, text_clean, lemma_text_round_trip};

verus! {

/// Which codec a stream was written with.
pub enum Codec {
    Bin,
    Csv,
    Text,
}

/// An encoded stream: bytes for the binary codec, characters for the two
/// textual codecs.
pub enum Wire {
    Bytes(Seq<u8>),
    Chars(Seq<char>),
}

/// The encoding of a sequence of records under the chosen codec.
pub open spec fn spec_encode_with(c: Codec, s: Seq<TxView>) -> Wire {
    match c {
        Codec::Bin => Wire::Bytes(spec_bin_encode(s)),
        Codec::Csv => Wire::Chars(spec_csv_encode(s)),
        Codec::Text => Wire::Chars(spec_text_encode(s)),
    }
}

/// The records denoted by a stream under the chosen codec; a stream of the
/// wrong kind is malformed.
pub open spec fn spec_decode_with(c: Codec, w: Wire) -> Result<Seq<TxView>, ErrKind> {
    match (c, w) {
        (Codec::Bin, Wire::Bytes(b)) => spec_bin_decode(b),
        (Codec::Csv, Wire::Chars(t)) => spec_csv_decode(t),
        (Codec::Text, Wire::Chars(t)) => spec_text_decode(t),
        _ => Err(ErrKind::Format),
    }
}

/// Whether every record of the sequence survives the chosen codec's round
/// trip: for the binary codec each description must fit the length field,
/// for CSV no description may hold a quote or line break, for text no
/// description may hold a line break.
pub open spec fn clean_for(c: Codec, s: Seq<TxView>) -> bool {
    match c {
        Codec::Bin => bin_encodable(s),
        Codec::Csv => csv_clean(s),
        Codec::Text => text_clean(s),
    }
}

/// Round trip under any one codec: decoding an encoded sequence yields the
/// sequence back.
pub proof fn lemma_round_trip_with(c: Codec, s: Seq<TxView>)
    requires
        clean_for(c, s),
    ensures
        spec_decode_with(c, spec_encode_with(c, s)) == Ok::<Seq<TxView>, ErrKind>(s),
{
    match c {
        Codec::Bin => lemma_bin_round_trip(s),
        Codec::Csv => lemma_csv_round_trip(s),
        Codec::Text => lemma_text_round_trip(s),
    }
}

/// Cross-format equivalence: encoding with codec `a`, decoding, re-encoding
/// the result with codec `b`, and decoding that yields the original
/// sequence, for any pairing of the three codecs.
pub proof fn lemma_cross_format(a: Codec, b: Codec, s: Seq<TxView>)
    requires
        clean_for(a, s),
        clean_for(b, s),
    ensures
        ({
            let through_a = spec_decode_with(a, spec_encode_with(a, s));
            &&& through_a == Ok::<Seq<TxView>, ErrKind>(s)
            &&& spec_decode_with(b, spec_encode_with(b, through_a->Ok_0)) == Ok::<
                Seq<TxView>,
                ErrKind,
            >(s)
        }),
{
    lemma_round_trip_with(a, s);
    lemma_round_trip_with(b, s);
}

} // verus!
