//! The rows of the tables on the screen.

use crate::model::quote;
use crate::model::{Holding, Quote};
use crate::num::Num;
use crate::json::JsonView;
use crate::sc::{self, number, words_else_empty};
use crate::text::{self, same_text};
use crate::worker::{self, CallLog, Shared};
use vstd::prelude::*;
use vstd::string::*;

verus! {

/// How many results of a search are shown.
pub const HITS: usize = 50;

/// How many lines of the log are shown.
pub const LOG_ROWS: usize = 300;

/// The name that was learned of an instrument, if any was.
pub open spec fn learned(s: Shared, isin: Seq<char>) -> Seq<char> {
    if worker::names_in(s.names).dom().contains(isin) {
        worker::names_in(s.names)[isin]
    } else {
        Seq::empty()
    }
}

/// Whether a quote is the one there is of an instrument, or says nothing but what
/// it is of where there is none.
pub open spec fn is_known(q: Quote, s: Shared, isin: Seq<char>) -> bool {
    if s.quotes@.dom().contains(isin) {
        q == s.quotes@[isin]
    } else {
        quote::is_unquoted(q, isin)
    }
}

/// Whether a row shows what is known of an instrument. A row without a quote, or
/// whose quote has no name, shows the name that was learned.
pub open spec fn is_row(row: Quote, s: Shared, isin: Seq<char>) -> bool {
    exists|q: Quote| #[trigger]
        is_known(q, s, isin) && quote::alike_but_name(row, q) && row.name@ == (
        if q.name@.len() > 0 {
            q.name@
        } else {
            learned(s, isin)
        })
}

fn quote_row(s: &Shared, isin: &String) -> (r: Quote)
    ensures
        is_row(r, *s, isin@),
{
    let ghost mut known: Quote;
    let mut row = match s.quotes.get(isin) {
        Some(q) => {
            proof {
                known = *q;
            }
            q.copy()
        },
        None => {
            let q = Quote::unquoted(isin.as_str());
            proof {
                known = q;
            }
            q
        },
    };
    assert(is_known(known, *s, isin@));
    if row.name.as_str().is_empty() {
        assert(row.name@ =~= Seq::<char>::empty());
        match s.names.get(isin) {
            Some(name) => {
                row.name = name.clone();
            },
            None => {},
        }
    }
    row
}

/// The rows of a list of instruments.
pub fn quote_rows(s: &Shared, isins: &Vec<String>) -> (r: Vec<Quote>)
    ensures
        r@.len() == isins@.len(),
        forall|i: int| 0 <= i < r@.len() ==> is_row(#[trigger] r@[i], *s, isins@[i]@),
{
    let mut out: Vec<Quote> = Vec::new();
    for i in 0..isins.len()
        invariant
            out@.len() == i,
            forall|k: int| 0 <= k < i ==> is_row(#[trigger] out@[k], *s, isins@[k]@),
    {
        out.push(quote_row(s, &isins[i]));
    }
    out
}

/// The instruments that are held, in the order of the holdings.
pub fn held(s: &Shared) -> (r: Vec<String>)
    ensures
        text::texts(r@) == s.holdings@.map_values(|h: Holding| h.isin@),
{
    let mut out: Vec<String> = Vec::new();
    let ghost all = s.holdings@.map_values(|h: Holding| h.isin@);
    for i in 0..s.holdings.len()
        invariant
            all == s.holdings@.map_values(|h: Holding| h.isin@),
            text::texts(out@) == all.take(i as int),
    {
        let ghost before = text::texts(out@);
        let isin = s.holdings[i].isin.clone();
        assert(all[i as int] == isin@);
        out.push(isin);
        assert(text::texts(out@) =~= before.push(isin@));
        assert(text::texts(out@) =~= all.take(i + 1));
    }
    assert(text::texts(out@) =~= all);
    out
}

/// The first holding in an instrument.
pub open spec fn first_in(hs: Seq<Holding>, isin: Seq<char>) -> Option<Holding>
    decreases hs.len(),
{
    if hs.len() == 0 {
        None
    } else if hs[0].isin@ == isin {
        Some(hs[0])
    } else {
        first_in(hs.drop_first(), isin)
    }
}

/// The holding in an instrument, if there is one.
pub fn holding_in<'a>(s: &'a Shared, isin: &str) -> (r: Option<&'a Holding>)
    ensures
        (match r {
            Some(h) => first_in(s.holdings@, isin@) == Some(*h),
            None => first_in(s.holdings@, isin@) is None,
        }),
{
    let ghost all = s.holdings@;
    assert(all.skip(0) =~= all);
    for i in 0..s.holdings.len()
        invariant
            all == s.holdings@,
            first_in(all, isin@) == first_in(all.skip(i as int), isin@),
    {
        assert(all.skip(i as int)[0] == all[i as int]);
        assert(all.skip(i as int).drop_first() =~= all.skip(i + 1));
        if same_text(s.holdings[i].isin.as_str(), isin) {
            return Some(&s.holdings[i]);
        }
    }
    assert(all.skip(all.len() as int).len() == 0);
    None
}

/// A result of a search.
#[derive(Debug, Clone)]
pub struct SearchHit {
    pub isin: String,
    pub name: String,
    pub mid: Option<Num>,
    pub security_type: String,
}

/// Whether a result is what an item of the payload says.
pub open spec fn is_hit(h: SearchHit, v: JsonView) -> bool {
    &&& h.isin@ == sc::words_or_empty(v, "isin"@)
    &&& h.name@ == sc::words_or_empty(v, "name"@)
    &&& h.mid == sc::number_at(v, "quote_mid_price"@)
    &&& h.security_type@ == sc::words_or_empty(v, "security_type"@)
}

/// How many of a list are shown where there is a limit.
pub open spec fn at_most_of(n: nat, limit: int) -> int {
    if n < limit {
        n as int
    } else {
        limit
    }
}

/// The results of the search, as far as they are shown.
pub fn search_hits(s: &Shared) -> (r: Vec<SearchHit>)
    ensures
        r@.len() == at_most_of(s.search_results@.len(), HITS as int),
        forall|i: int|
            0 <= i < r@.len() ==> is_hit(#[trigger] r@[i], s.search_results@[i].view()),
{
    let all: usize = s.search_results.len();
    let n: usize = if all < HITS {
        all
    } else {
        HITS
    };
    let mut out: Vec<SearchHit> = Vec::new();
    for i in 0..n
        invariant
            n <= s.search_results@.len(),
            out@.len() == i,
            forall|k: int|
                0 <= k < i ==> is_hit(#[trigger] out@[k], s.search_results@[k].view()),
    {
        let v = &s.search_results[i];
        out.push(
            SearchHit {
                isin: words_else_empty(v, "isin"),
                name: words_else_empty(v, "name"),
                mid: number(v, "quote_mid_price"),
                security_type: words_else_empty(v, "security_type"),
            },
        );
    }
    out
}

/// The newest lines of the log, the newest first.
pub fn log_rows(s: &Shared) -> (r: Vec<&CallLog>)
    ensures
        r@.len() == at_most_of(s.log@.len(), LOG_ROWS as int),
        forall|i: int| 0 <= i < r@.len() ==> *(#[trigger] r@[i]) == s.log@[s.log@.len() - 1 - i],
{
    let all: usize = s.log.len();
    let n: usize = if all < LOG_ROWS {
        all
    } else {
        LOG_ROWS
    };
    let mut out: Vec<&CallLog> = Vec::new();
    for i in 0..n
        invariant
            n <= all,
            all == s.log@.len(),
            out@.len() == i,
            forall|k: int| 0 <= k < i ==> *(#[trigger] out@[k]) == s.log@[s.log@.len() - 1 - k],
    {
        out.push(&s.log[all - 1 - i]);
    }
    out
}

} // verus!
