//! The codecs for the delimited fields that the modem embeds in its replies.

pub mod channel_line;
pub mod duration;
pub mod log_line;
pub mod timestamp;

use crate::error::Error;
use vstd::prelude::*;

verus! {

/// The error that names `s` as the offending text.
pub fn malformed(s: &str) -> (e: Error)
    ensures
        e.is_malformed(s@),
{
    Error::MalformedField(String::from_str(s))
}

/// The records that `pieces` decode to under `decode`, in order, or the first
/// piece that `decode` does not accept.
pub open spec fn decode_records<T>(
    pieces: Seq<Seq<char>>,
    decode: spec_fn(Seq<char>) -> Option<T>,
) -> Result<Seq<T>, Seq<char>>
    decreases pieces.len(),
{
    if pieces.len() == 0 {
        Ok(Seq::empty())
    } else {
        match decode_records(pieces.drop_last(), decode) {
            Err(bad) => Err(bad),
            Ok(records) => match decode(pieces.last()) {
                Some(record) => Ok(records.push(record)),
                None => Err(pieces.last()),
            },
        }
    }
}

/// Decoding succeeds exactly where every piece is accepted, and then gives
/// one record for each piece.
pub proof fn lemma_decode_records<T>(
    pieces: Seq<Seq<char>>,
    decode: spec_fn(Seq<char>) -> Option<T>,
)
    ensures
        decode_records(pieces, decode) is Ok <==> forall|i: int|
            0 <= i < pieces.len() ==> (#[trigger] decode(pieces[i])) is Some,
        decode_records(pieces, decode) matches Ok(records) ==> records.len() == pieces.len()
            && forall|i: int|
            0 <= i < pieces.len() ==> #[trigger] decode(pieces[i]) == Some(records[i]),
        decode_records(pieces, decode) matches Err(bad) ==> exists|i: int|
            0 <= i < pieces.len() && pieces[i] == bad && (#[trigger] decode(pieces[i])) is None
                && forall|j: int| 0 <= j < i ==> (#[trigger] decode(pieces[j])) is Some,
    decreases pieces.len(),
{
    if pieces.len() > 0 {
        let front = pieces.drop_last();
        lemma_decode_records(front, decode);
        assert forall|i: int| 0 <= i < front.len() implies front[i] == pieces[i] by {}
        match decode_records(front, decode) {
            Err(bad) => {
                let i = choose|i: int|
                    0 <= i < front.len() && front[i] == bad && (#[trigger] decode(front[i])) is None
                        && forall|j: int| 0 <= j < i ==> (#[trigger] decode(front[j])) is Some;
                assert(pieces[i] == bad && decode(pieces[i]) is None);
                assert forall|j: int| 0 <= j < i implies (#[trigger] decode(pieces[j])) is Some by {
                    assert(decode(front[j]) is Some);
                }
            },
            Ok(records) => {
                match decode(pieces.last()) {
                    Some(record) => {
                        assert forall|i: int| 0 <= i < pieces.len() implies #[trigger] decode(
                            pieces[i],
                        ) == Some(records.push(record)[i]) by {
                            if i < front.len() {
                                assert(decode(front[i]) == Some(records[i]));
                            }
                        }
                    },
                    None => {
                        let i = pieces.len() - 1;
                        assert(pieces[i] == pieces.last());
                        assert forall|j: int| 0 <= j < i implies (#[trigger] decode(
                            pieces[j],
                        )) is Some by {
                            assert(decode(front[j]) is Some);
                        }
                    },
                }
            },
        }
    }
}

/// An error among the first `k` pieces is the error of the whole.
pub proof fn lemma_decode_prefix_error<T>(
    pieces: Seq<Seq<char>>,
    k: int,
    decode: spec_fn(Seq<char>) -> Option<T>,
)
    requires
        0 <= k <= pieces.len(),
        decode_records(pieces.take(k), decode) is Err,
    ensures
        decode_records(pieces, decode) == decode_records(pieces.take(k), decode),
    decreases pieces.len() - k,
{
    if k == pieces.len() {
        assert(pieces.take(k) =~= pieces);
    } else {
        assert(pieces.drop_last().take(k) =~= pieces.take(k));
        lemma_decode_prefix_error(pieces.drop_last(), k, decode);
    }
}

/// Where every piece is accepted, decoding gives the records that the
/// pieces decode to.
pub proof fn lemma_decode_all<T>(
    pieces: Seq<Seq<char>>,
    decode: spec_fn(Seq<char>) -> Option<T>,
    records: Seq<T>,
)
    requires
        records.len() == pieces.len(),
        forall|i: int| 0 <= i < pieces.len() ==> #[trigger] decode(pieces[i]) == Some(records[i]),
    ensures
        decode_records(pieces, decode) == Ok::<Seq<T>, Seq<char>>(records),
    decreases pieces.len(),
{
    if pieces.len() == 0 {
        assert(records =~= Seq::empty());
    } else {
        let front = pieces.drop_last();
        assert forall|i: int| 0 <= i < front.len() implies #[trigger] decode(front[i]) == Some(
            records.drop_last()[i],
        ) by {
            assert(decode(pieces[i]) == Some(records[i]));
        }
        lemma_decode_all(front, decode, records.drop_last());
        assert(decode(pieces[pieces.len() - 1]) == Some(records[pieces.len() - 1]));
        assert(records.drop_last().push(records.last()) =~= records);
    }
}

} // verus!
