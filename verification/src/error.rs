//! Engine errors. Messages are written in the interface's voice: they say what
//! happened and, where useful, what to do, since they surface directly in the UI.

use vstd::prelude::*;

use crate::text::{decimal, decimal_text, lemma_padded_digits_no_comma, lemma_padded_digits_value};

verus! {

#[derive(Debug, Clone, PartialEq, Eq)]
pub enum Error {
    UserNotFound,
    MarketNotFound,
    /// Action attempted on an already-resolved market.
    MarketResolved,
    /// Predictions attempted after the market's close time.
    PredictionsClosed,
    /// Resolution attempted while a timed market is still accepting predictions.
    TooEarlyToResolve,
    UnknownOutcome,
    ZeroUnits,
    InsufficientBalance { have: u64, need: u64 },
}

/// The text shown for an error.
pub open spec fn message_text(e: Error) -> Seq<char> {
    match e {
        Error::UserNotFound => "that account doesn't exist"@,
        Error::MarketNotFound => "that market doesn't exist"@,
        Error::MarketResolved => "this market is resolved — it's settled and closed"@,
        Error::PredictionsClosed => "predictions have closed for this market — it's awaiting resolution"@,
        Error::TooEarlyToResolve => "this market is still open for predictions — it can't be resolved yet"@,
        Error::UnknownOutcome => "pick one of the market's listed outcomes"@,
        Error::ZeroUnits => "stake at least 1 point"@,
        Error::InsufficientBalance { have, need } => "not enough points: you have "@ + decimal(
            have as nat,
        ) + ", this needs "@ + decimal(need as nat),
    }
}

/// The HTTP status an error is answered with: "not found" for a missing
/// account or market, "bad request" for everything else.
pub open spec fn status_code(e: Error) -> u16 {
    match e {
        Error::UserNotFound | Error::MarketNotFound => 404,
        _ => 400,
    }
}

/// Law: different errors get different messages, down to the amounts of an
/// insufficient balance.
pub proof fn law_messages_distinct(e1: Error, e2: Error)
    requires
        e1 != e2,
    ensures
        message_text(e1) != message_text(e2),
{
    reveal_strlit("that account doesn't exist");
    reveal_strlit("that market doesn't exist");
    reveal_strlit("this market is resolved — it's settled and closed");
    reveal_strlit("predictions have closed for this market — it's awaiting resolution");
    reveal_strlit("this market is still open for predictions — it can't be resolved yet");
    reveal_strlit("pick one of the market's listed outcomes");
    reveal_strlit("stake at least 1 point");
    reveal_strlit("not enough points: you have ");
    reveal_strlit(", this needs ");
    let t1 = message_text(e1);
    let t2 = message_text(e2);
    match (e1, e2) {
        (
            Error::InsufficientBalance { have: h1, need: n1 },
            Error::InsufficientBalance { have: h2, need: n2 },
        ) => {
            if t1 == t2 {
                let p = "not enough points: you have "@;
                let c = ", this needs "@;
                let d1 = decimal(h1 as nat);
                let d2 = decimal(h2 as nat);
                lemma_padded_digits_no_comma(h1 as nat, 1);
                lemma_padded_digits_no_comma(h2 as nat, 1);
                assert(p.len() == 28);
                assert(c[0] == ',');
                assert(t1 == p + d1 + c + decimal(n1 as nat));
                assert(t2 == p + d2 + c + decimal(n2 as nat));
                if d1.len() < d2.len() {
                    assert(t1[28 + d1.len() as int] == c[0]);
                    assert(t2[28 + d1.len() as int] == d2[d1.len() as int]);
                } else if d2.len() < d1.len() {
                    assert(t2[28 + d2.len() as int] == c[0]);
                    assert(t1[28 + d2.len() as int] == d1[d2.len() as int]);
                } else {
                    assert(d1 =~= t1.subrange(28, 28 + d1.len() as int));
                    assert(d2 =~= t2.subrange(28, 28 + d2.len() as int));
                    lemma_padded_digits_value(h1 as nat, 1);
                    lemma_padded_digits_value(h2 as nat, 1);
                    let start: int = 28 + d1.len() as int + 13;
                    assert(decimal(n1 as nat) =~= t1.subrange(start, t1.len() as int));
                    assert(decimal(n2 as nat) =~= t2.subrange(start, t2.len() as int));
                    lemma_padded_digits_value(n1 as nat, 1);
                    lemma_padded_digits_value(n2 as nat, 1);
                }
            }
        },
        (Error::InsufficientBalance { .. }, _) => {
            assert(t1[0] == 'n');
            assert(t2[0] != 'n');
        },
        (_, Error::InsufficientBalance { .. }) => {
            assert(t2[0] == 'n');
            assert(t1[0] != 'n');
        },
        _ => {
            assert(t1.len() != t2.len());
        },
    }
}

impl Error {
    /// The message for this error, as its `Display` writes it.
    pub fn message(&self) -> (s: String)
        ensures
            s@ == message_text(*self),
    {
        match self {
            Error::UserNotFound => String::from_str("that account doesn't exist"),
            Error::MarketNotFound => String::from_str("that market doesn't exist"),
            Error::MarketResolved => String::from_str(
                "this market is resolved — it's settled and closed",
            ),
            Error::PredictionsClosed => String::from_str(
                "predictions have closed for this market — it's awaiting resolution",
            ),
            Error::TooEarlyToResolve => String::from_str(
                "this market is still open for predictions — it can't be resolved yet",
            ),
            Error::UnknownOutcome => String::from_str("pick one of the market's listed outcomes"),
            Error::ZeroUnits => String::from_str("stake at least 1 point"),
            Error::InsufficientBalance { have, need } => {
                let mut s = String::from_str("not enough points: you have ");
                let h = decimal_text(*have);
                s.append(h.as_str());
                s.append(", this needs ");
                let n = decimal_text(*need);
                s.append(n.as_str());
                s
            },
        }
    }

    /// The HTTP status code this error is answered with.
    pub fn http_status(&self) -> (c: u16)
        ensures
            c == status_code(*self),
    {
        match self {
            Error::UserNotFound | Error::MarketNotFound => 404,
            _ => 400,
        }
    }
}

} // verus!
