//! The rules the API applies to requests before they reach the store.

use vstd::prelude::*;

use crate::text::{same_text, trim_text, trimmed};

verus! {

/// The name a new account gets: `"anon"` when the requested name is blank,
/// else the requested name as given (the store trims it).
pub fn account_name(name: String) -> (r: String)
    ensures
        r@ == (if trimmed(name@).len() == 0 {
            "anon"@
        } else {
            name@
        }),
{
    if trim_text(name.as_str()).is_empty() {
        String::from_str("anon")
    } else {
        name
    }
}

/// Who a resolution is recorded as made by: `"committee"` when the request
/// leaves it blank.
pub fn resolver_name(by: String) -> (r: String)
    ensures
        r@ == (if trimmed(by@).len() == 0 {
            "committee"@
        } else {
            by@
        }),
{
    if trim_text(by.as_str()).is_empty() {
        String::from_str("committee")
    } else {
        by
    }
}

/// The requested outcomes, each trimmed, with the blank ones dropped.
pub open spec fn cleaned(outcomes: Seq<Seq<char>>) -> Seq<Seq<char>>
    decreases outcomes.len(),
{
    if outcomes.len() == 0 {
        Seq::empty()
    } else {
        let rest = cleaned(outcomes.drop_last());
        let t = trimmed(outcomes.last());
        if t.len() == 0 {
            rest
        } else {
            rest.push(t)
        }
    }
}

/// The outcomes of a market request, trimmed, without blank ones.
pub fn clean_outcomes(outcomes: &Vec<String>) -> (r: Vec<String>)
    ensures
        r.deep_view() == cleaned(outcomes.deep_view()),
{
    let ghost os = outcomes.deep_view();
    let mut r: Vec<String> = Vec::new();
    let mut i: usize = 0;
    assert(os.take(0) =~= Seq::<Seq<char>>::empty());
    while i < outcomes.len()
        invariant
            os == outcomes.deep_view(),
            i <= outcomes.len(),
            r.deep_view() =~= cleaned(os.take(i as int)),
        decreases outcomes.len() - i,
    {
        assert(os.take(i + 1).drop_last() =~= os.take(i as int));
        assert(os.take(i + 1).last() == outcomes@[i as int]@);
        let t = trim_text(outcomes[i].as_str());
        if !t.is_empty() {
            let ghost prev = r.deep_view();
            r.push(t.to_owned());
            assert(r.deep_view() =~= prev.push(trimmed(outcomes@[i as int]@)));
        }
        i = i + 1;
    }
    assert(os.take(outcomes.len() as int) =~= os);
    r
}

/// Whether a market request can be opened: it needs a question that is not
/// blank and at least two outcomes (after cleaning).
pub fn market_request_ok(question: &str, outcomes: &Vec<String>) -> (r: bool)
    ensures
        r == (trimmed(question@).len() > 0 && outcomes.len() >= 2),
{
    !trim_text(question).is_empty() && outcomes.len() >= 2
}

/// Whether a request carries the committee's admin token. This token is a
/// placeholder for the committee.
pub fn admin_token_ok(token: Option<&str>) -> (r: bool)
    ensures
        r == (token is Some && token.unwrap()@ == "committee-dev-token"@),
{
    match token {
        Some(t) => same_text(t, "committee-dev-token"),
        None => false,
    }
}

} // verus!
