//! Idempotent-producer request headers.

use crate::protocol::error::{Error, ErrorView};
use crate::storage::{opt_text, ProducerHeaders};
use crate::text::{parse_u64, parse_u64_spec};
use vstd::prelude::*;

verus! {

/// The message for a producer header sent without the other two.
pub open spec fn incomplete_producer_message() -> Seq<char> {
    "Producer-Id, Producer-Epoch and Producer-Seq must be sent together"@
}

/// The view of parsed producer headers.
pub open spec fn producer_view(p: ProducerHeaders) -> (Seq<char>, u64, u64) {
    (p.id@, p.epoch, p.seq)
}

/// What the three producer headers amount to: none of them means no producer;
/// all three, with a non-empty id and two unsigned integers, give a producer;
/// anything else is refused.
pub open spec fn producer_headers_spec(
    id: Option<Seq<char>>,
    epoch: Option<Seq<char>>,
    seq: Option<Seq<char>>,
) -> Result<Option<(Seq<char>, u64, u64)>, ErrorView> {
    if id is None && epoch is None && seq is None {
        Ok(None)
    } else if id is None || epoch is None || seq is None {
        Err(ErrorView::InvalidHeader { header: "Producer-Id"@, reason: incomplete_producer_message() })
    } else if id->0.len() == 0 {
        Err(ErrorView::InvalidHeader { header: "Producer-Id"@, reason: "empty value"@ })
    } else if parse_u64_spec(epoch->0) is None {
        Err(ErrorView::InvalidHeader { header: "Producer-Epoch"@, reason: "invalid integer"@ })
    } else if parse_u64_spec(seq->0) is None {
        Err(ErrorView::InvalidHeader { header: "Producer-Seq"@, reason: "invalid integer"@ })
    } else {
        Ok(Some((id->0, parse_u64_spec(epoch->0)->0, parse_u64_spec(seq->0)->0)))
    }
}

fn invalid_header(header: &str, reason: &str) -> (e: Error)
    ensures
        e@ == (ErrorView::InvalidHeader { header: header@, reason: reason@ }),
{
    Error::InvalidHeader { header: header.to_owned(), reason: reason.to_owned() }
}

/// Parses the `Producer-Id`, `Producer-Epoch` and `Producer-Seq` headers.
pub fn parse_producer_headers(id: Option<&str>, epoch: Option<&str>, seq: Option<&str>) -> (r:
    Result<Option<ProducerHeaders>, Error>)
    ensures
        match r {
            Ok(Some(p)) => producer_headers_spec(opt_text(id), opt_text(epoch), opt_text(seq))
                == Ok::<Option<(Seq<char>, u64, u64)>, ErrorView>(Some(producer_view(p))),
            Ok(None) => producer_headers_spec(opt_text(id), opt_text(epoch), opt_text(seq))
                == Ok::<Option<(Seq<char>, u64, u64)>, ErrorView>(None),
            Err(e) => producer_headers_spec(opt_text(id), opt_text(epoch), opt_text(seq)) == Err::<
                Option<(Seq<char>, u64, u64)>,
                ErrorView,
            >(e@),
        },
{
    match (id, epoch, seq) {
        (None, None, None) => Ok(None),
        (Some(id), Some(epoch), Some(seq)) => {
            if id.is_empty() {
                return Err(invalid_header("Producer-Id", "empty value"));
            }
            let e = match parse_u64(epoch) {
                Some(e) => e,
                None => {
                    return Err(invalid_header("Producer-Epoch", "invalid integer"));
                },
            };
            let s = match parse_u64(seq) {
                Some(s) => s,
                None => {
                    return Err(invalid_header("Producer-Seq", "invalid integer"));
                },
            };
            Ok(Some(ProducerHeaders { id: id.to_owned(), epoch: e, seq: s }))
        },
        _ => Err(
            invalid_header(
                "Producer-Id",
                "Producer-Id, Producer-Epoch and Producer-Seq must be sent together",
            ),
        ),
    }
}

} // verus!
