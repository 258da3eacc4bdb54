//! What a round of quotes changes.

use crate::model::trail;
use crate::model::{quote, Quote, Trail};
use crate::num::{self, Num};
use crate::sc::{self, result, Call};
use crate::text;
use crate::worker::{self, linked, Shared};
use vstd::prelude::*;
use vstd::string::*;

verus! {

/// What one instrument answered in a round: its quote, or the error.
#[derive(Debug)]
pub struct QuoteResult {
    pub isin: String,
    pub quote: Option<Quote>,
    pub ms: u64,
    pub error: Option<String>,
}

/// What a call for a quote has answered.
pub fn quote_result(isin: &str, call: &Call) -> (r: QuoteResult)
    ensures
        r.isin@ == isin@,
        r.ms == call.elapsed_ms,
        (match sc::outcome(*call) {
            Ok(v) => r.error is None && r.quote is Some && quote::is_quote(
                r.quote->0,
                isin@,
                sc::unwrapped(v),
            ),
            Err(e) => r.quote is None && text::seen_text(r.error) == Some(sc::error_text(e)),
        }),
{
    match &call.data {
        Ok(v) => QuoteResult {
            isin: isin.to_owned(),
            quote: Some(Quote::from_json(isin, result(v))),
            ms: call.elapsed_ms,
            error: None,
        },
        Err(e) => QuoteResult {
            isin: isin.to_owned(),
            quote: None,
            ms: call.elapsed_ms,
            error: Some(e.text()),
        },
    }
}

/// How many instruments of a round have no quote.
pub open spec fn failures(rs: Seq<QuoteResult>) -> int
    decreases rs.len(),
{
    if rs.len() == 0 {
        0
    } else {
        failures(rs.drop_last()) + (if rs.last().quote is None {
            1int
        } else {
            0int
        })
    }
}

/// Whether an instrument of a round was refused for the rate of calls.
pub open spec fn limited(rs: Seq<QuoteResult>) -> bool
    decreases rs.len(),
{
    rs.len() > 0 && (limited(rs.drop_last()) || (rs.last().quote is None && rs.last().error is Some
        && text::holds(rs.last().error->0@, "rate_limited"@)))
}

/// The time that the calls of a round took, added up.
pub open spec fn total_ms(rs: Seq<QuoteResult>) -> int
    decreases rs.len(),
{
    if rs.len() == 0 {
        0
    } else {
        total_ms(rs.drop_last()) + rs.last().ms
    }
}

/// A log with the failures of a round behind it.
pub open spec fn with_failures(log: Seq<worker::Line>, rs: Seq<QuoteResult>) -> Seq<worker::Line>
    decreases rs.len(),
{
    if rs.len() == 0 {
        log
    } else {
        let before = with_failures(log, rs.drop_last());
        let r = rs.last();
        if r.quote is None && r.error is Some {
            worker::logged(
                before,
                worker::line("broker.quote"@, r.ms as int, false, r.isin@ + ": "@ + r.error->0@),
            )
        } else {
            before
        }
    }
}

/// `names` with those that came with the quotes of a round.
pub open spec fn with_quoted(
    names: Map<Seq<char>, Seq<char>>,
    rs: Seq<QuoteResult>,
) -> Map<Seq<char>, Seq<char>>
    decreases rs.len(),
{
    if rs.len() == 0 {
        names
    } else {
        let before = with_quoted(names, rs.drop_last());
        let r = rs.last();
        if r.quote is Some && r.quote->0.name@.len() > 0 {
            before.insert(r.isin@, r.quote->0.name@)
        } else {
            before
        }
    }
}

/// Quotes with those of a round in their place.
pub open spec fn requoted(
    quotes: Map<Seq<char>, Quote>,
    rs: Seq<QuoteResult>,
) -> Map<Seq<char>, Quote>
    decreases rs.len(),
{
    if rs.len() == 0 {
        quotes
    } else {
        let before = requoted(quotes, rs.drop_last());
        let r = rs.last();
        if r.quote is Some {
            before.insert(r.isin@, r.quote->0)
        } else {
            before
        }
    }
}

/// The mid of an instrument, where it has been quoted with one.
pub open spec fn mid_in(quotes: Map<Seq<char>, Quote>, isin: Seq<char>) -> Option<Num> {
    if quotes.dom().contains(isin) {
        quotes[isin].mid
    } else {
        None
    }
}

/// Whether no trail before the `i`th is on the same instrument.
pub open spec fn is_first_trail(trails: Seq<Trail>, i: int) -> bool {
    forall|j: int| 0 <= j < i ==> (#[trigger] trails[j]).isin@ != trails[i].isin@
}

/// The price that the `i`th trail is shown, where it is shown one.
pub open spec fn price_for(
    trails: Seq<Trail>,
    i: int,
    quotes: Map<Seq<char>, Quote>,
) -> Option<Num> {
    if is_first_trail(trails, i) {
        mid_in(quotes, trails[i].isin@)
    } else {
        None
    }
}

/// The `i`th trail once it has been shown the price.
pub open spec fn advanced_trail(
    trails: Seq<Trail>,
    i: int,
    quotes: Map<Seq<char>, Quote>,
) -> Trail {
    match price_for(trails, i, quotes) {
        Some(m) => Trail { high_water: trail::marked(trails[i].high_water, m), ..trails[i] },
        None => trails[i],
    }
}

/// Whether the high water mark of the `i`th trail rises.
pub open spec fn rises(trails: Seq<Trail>, i: int, quotes: Map<Seq<char>, Quote>) -> bool {
    match price_for(trails, i, quotes) {
        Some(m) => num::is_finite(m) && num::less(trails[i].high_water, m),
        None => false,
    }
}

/// The trails once each has been shown the price of its instrument.
pub open spec fn advanced(trails: Seq<Trail>, quotes: Map<Seq<char>, Quote>) -> Seq<Trail> {
    Seq::new(trails.len(), |i: int| advanced_trail(trails, i, quotes))
}

/// Whether the high water mark of any of the first `n` trails rises.
pub open spec fn any_rises(trails: Seq<Trail>, quotes: Map<Seq<char>, Quote>, n: int) -> bool {
    exists|i: int| 0 <= i < n && #[trigger] rises(trails, i, quotes)
}

/// A double to the nearest whole number, the even one of two equally near.
pub open spec fn to_whole(x: Num) -> int {
    let n = num::cut(x, 0, u64::MAX as int);
    let rest = num::difference(x, num::whole(n));
    if num::less(num::ratio(1, 2), rest) || (num::same(rest, num::ratio(1, 2)) && n % 2 == 1) {
        n + 1
    } else {
        n
    }
}

/// The mean time of a call in a round.
pub open spec fn mean_ms(rs: Seq<QuoteResult>) -> Num {
    num::quotient(num::whole(total_ms(rs)), num::whole(rs.len() as int))
}

/// What the log says of a round.
pub open spec fn round_line(rs: Seq<QuoteResult>, round_ms: u128) -> worker::Line {
    worker::line(
        "quote round"@,
        round_ms as int,
        failures(rs) == 0,
        text::decimal(rs.len() as int) + " isins, "@ + text::decimal(failures(rs)) + " failed, "@
            + text::decimal(to_whole(mean_ms(rs))) + " ms/call"@,
    )
}

/// The log after a round.
pub open spec fn round_log(
    a: Shared,
    rs: Seq<QuoteResult>,
    round_ms: u128,
    rose: bool,
) -> Seq<worker::Line> {
    let failed = with_failures(a.lines(), rs);
    let marked = if rose {
        worker::logged(failed, worker::line("trail.mark"@, 0, true, "high water advanced"@))
    } else {
        failed
    };
    let told = worker::logged(marked, round_line(rs, round_ms));
    if limited(rs) {
        worker::logged(told, worker::limit_line(a.backoff_level, "broker.quote"@))
    } else if failures(rs) == 0 && (a.backoff_level > 0 || a.probe_next) {
        worker::logged(
            told,
            worker::line("rate limit"@, 0, true, "clear, resuming full rate"@),
        )
    } else {
        told
    }
}

/// Whether a round of quotes has been taken in. One in which nothing was asked
/// for leaves everything as it was.
pub open spec fn took_quotes(
    a: Shared,
    b: Shared,
    rs: Seq<QuoteResult>,
    round_ms: u128,
    now: u64,
) -> bool {
    if rs.len() == 0 {
        b == a
    } else {
        took_answers(a, b, rs, round_ms, now)
    }
}

/// Whether the answers of a round have been taken in.
pub open spec fn took_answers(
    a: Shared,
    b: Shared,
    rs: Seq<QuoteResult>,
    round_ms: u128,
    now: u64,
) -> bool {
    &&& worker::names_in(b.names) == with_quoted(worker::names_in(a.names), rs)
    &&& b.quotes@ == requoted(a.quotes@, rs)
    &&& b.trails@ == advanced(a.trails@, b.quotes@)
    &&& b.quote_ms_avg == mean_ms(rs)
    &&& b.last_round_ms == round_ms
    &&& b.last_round_calls == rs.len()
    &&& b.lines() == round_log(
        a,
        rs,
        round_ms,
        any_rises(a.trails@, b.quotes@, a.trails@.len() as int),
    )
    &&& if limited(rs) {
        &&& b.backoff_level == worker::next_level(a.backoff_level)
        &&& b.backoff_until == Some(
            worker::after(now, worker::backoff(a.backoff_level as nat) as int),
        )
        &&& b.probe_next
    } else if failures(rs) == 0 {
        &&& b.backoff_level == 0
        &&& b.backoff_until == a.backoff_until
        &&& !b.probe_next
    } else {
        &&& b.backoff_level == a.backoff_level
        &&& b.backoff_until == a.backoff_until
        &&& b.probe_next == a.probe_next
    }
    &&& b == (Shared {
        names: b.names,
        quotes: b.quotes,
        trails: b.trails,
        quote_ms_avg: b.quote_ms_avg,
        last_round_ms: b.last_round_ms,
        last_round_calls: b.last_round_calls,
        backoff_level: b.backoff_level,
        backoff_until: b.backoff_until,
        probe_next: b.probe_next,
        log: b.log,
        ..a
    })
}

proof fn lemma_counts(rs: Seq<QuoteResult>)
    ensures
        0 <= failures(rs) <= rs.len(),
        0 <= total_ms(rs) <= rs.len() * 0xffff_ffff_ffff_ffff,
        limited(rs) ==> failures(rs) > 0,
    decreases rs.len(),
{
    if rs.len() > 0 {
        lemma_counts(rs.drop_last());
    }
}

/// A double as the whole number nearest to it.
fn whole_near(x: Num) -> (r: u128)
    ensures
        r == to_whole(x),
{
    let n: u64 = x.to_u64();
    let rest: Num = x.minus(Num::from_u128(n as u128));
    let half: Num = Num::ratio(1, 2);
    if half.lt(rest) || (rest.equals(half) && n % 2 == 1) {
        n as u128 + 1
    } else {
        n as u128
    }
}

impl Shared {
    /// The mid of an instrument, where it has been quoted with one.
    pub fn mid_of(&self, isin: &String) -> (r: Option<Num>)
        ensures
            r == mid_in(self.quotes@, isin@),
    {
        match self.quotes.get(isin) {
            Some(q) => q.mid,
            None => None,
        }
    }

    /// Shows each trail the price of its instrument, and says whether any high
    /// water mark rose.
    fn advance_trails(&mut self) -> (r: bool)
        ensures
            final(self).trails@ == advanced(old(self).trails@, old(self).quotes@),
            r == any_rises(
                old(self).trails@,
                old(self).quotes@,
                old(self).trails@.len() as int,
            ),
            *final(self) == (Shared { trails: final(self).trails, ..*old(self) }),
    {
        let ghost before = self.trails@;
        let ghost quotes = self.quotes@;
        let n: usize = self.trails.len();
        let mut rose = false;
        let mut now: Vec<Trail> = Vec::new();
        for i in 0..n
            invariant
                n == before.len(),
                before == self.trails@,
                quotes == self.quotes@,
                *self == *old(self),
                now@ == advanced(before, quotes).take(i as int),
                rose == any_rises(before, quotes, i as int),
        {
            let mut first = true;
            for j in 0..i
                invariant
                    n == before.len(),
                    i < n,
                    before == self.trails@,
                    first == forall|k: int|
                        0 <= k < j ==> (#[trigger] before[k]).isin@ != before[i as int].isin@,
            {
                if self.trails[j].isin == self.trails[i].isin {
                    assert(before[j as int].isin@ == before[i as int].isin@);
                    first = false;
                }
            }
            assert(first == is_first_trail(before, i as int));
            let mut t = self.trails[i].copy();
            let mut up = false;
            if first {
                match self.mid_of(&t.isin) {
                    Some(m) => {
                        up = t.observe(m);
                    },
                    None => {},
                }
            }
            assert(up == rises(before, i as int, quotes));
            assert(t == advanced_trail(before, i as int, quotes));
            rose = rose || up;
            now.push(t);
            assert(now@ =~= advanced(before, quotes).take(i + 1));
        }
        assert(now@ =~= advanced(before, quotes));
        self.trails = now;
        rose
    }

    /// Takes in the answers of one round of quotes, and says whether the trails
    /// are to be saved.
    pub fn refresh_quotes(&mut self, results: Vec<QuoteResult>, round_ms: u128, now: u64) -> (r:
        bool)
        ensures
            took_quotes(*old(self), *final(self), results@, round_ms, now),
            results@.len() == 0 ==> *final(self) == *old(self) && !r,
            results@.len() > 0 ==> r == any_rises(
                old(self).trails@,
                final(self).quotes@,
                old(self).trails@.len() as int,
            ),
    {
        let ghost all = results@;
        let calls: usize = results.len();
        if calls == 0 {
            return false;
        }
        let mut rest = results;
        let mut total: u128 = 0;
        let mut failed: usize = 0;
        let mut refused = false;
        assert(all.skip(0) =~= all);
        assert(all.take(0) =~= Seq::empty());
        for i in 0..calls
            invariant
                calls == all.len(),
                rest@ == all.skip(i as int),
                total == total_ms(all.take(i as int)),
                failed == failures(all.take(i as int)),
                failed <= i,
                refused == limited(all.take(i as int)),
                worker::names_in(self.names) == with_quoted(
                    worker::names_in(old(self).names),
                    all.take(i as int),
                ),
                self.quotes@ == requoted(old(self).quotes@, all.take(i as int)),
                self.lines() == with_failures(old(self).lines(), all.take(i as int)),
                *self == (Shared {
                    names: self.names,
                    quotes: self.quotes,
                    log: self.log,
                    ..*old(self)
                }),
        {
            proof {
                assert(all.skip(i as int)[0] == all[i as int]);
                assert(all.skip(i as int).drop_first() =~= all.skip(i + 1));
                assert(all.take(i + 1).drop_last() =~= all.take(i as int));
                assert(all.take(i + 1).last() == all[i as int]);
                lemma_counts(all.take(i as int));
                assert(i * 0xffff_ffff_ffff_ffff + 0xffff_ffff_ffff_ffff <= u128::MAX)
                    by (nonlinear_arith)
                    requires
                        0 <= i < usize::MAX,
                ;
            }
            let one = rest.remove(0);
            assert(one == all[i as int]);
            total = total + one.ms as u128;
            match one.quote {
                Some(q) => {
                    if !q.name.as_str().is_empty() {
                        self.learn(one.isin.as_str(), q.name.as_str());
                    }
                    self.quotes.insert(one.isin, q);
                },
                None => {
                    failed = failed + 1;
                    match one.error {
                        Some(e) => {
                            if text::contains(e.as_str(), "rate_limited") {
                                refused = true;
                            }
                            let detail = linked(one.isin.as_str(), ": ", e.as_str());
                            self.push_log("broker.quote", one.ms as u128, false, detail);
                        },
                        None => {},
                    }
                },
            }
        }
        proof {
            assert(all.take(all.len() as int) =~= all);
            lemma_counts(all);
        }
        let rose = self.advance_trails();
        if rose {
            self.push_log("trail.mark", 0, true, "high water advanced".to_owned());
        }
        let avg: Num = Num::from_u128(total).over(Num::from_u128(calls as u128));
        self.quote_ms_avg = avg;
        self.last_round_ms = round_ms;
        self.last_round_calls = calls;
        let mut detail = String::new();
        text::push_decimal(&mut detail, calls as u128);
        detail.append(" isins, ");
        text::push_decimal(&mut detail, failed as u128);
        detail.append(" failed, ");
        text::push_decimal(&mut detail, whole_near(avg));
        detail.append(" ms/call");
        assert(detail@ =~= text::decimal(calls as int) + " isins, "@ + text::decimal(
            failed as int,
        ) + " failed, "@ + text::decimal(to_whole(avg)) + " ms/call"@);
        self.push_log("quote round", round_ms, failed == 0, detail);
        if refused {
            self.note_rate_limit("broker.quote", now);
        } else if failed == 0 {
            // Only a round without a failure shows that the limit has been lifted.
            if self.backoff_level > 0 || self.probe_next {
                self.push_log("rate limit", 0, true, "clear, resuming full rate".to_owned());
            }
            self.backoff_level = 0;
            self.probe_next = false;
        }
        rose
    }
}

/// Only a round in which something was asked for, and nothing failed, ends the
/// waiting.
pub proof fn law_only_full_success_lifts_the_limit(
    a: Shared,
    b: Shared,
    rs: Seq<QuoteResult>,
    round_ms: u128,
    now: u64,
)
    requires
        took_quotes(a, b, rs, round_ms, now),
        (a.backoff_level > 0 && b.backoff_level == 0) || (a.probe_next && !b.probe_next),
    ensures
        rs.len() > 0,
        failures(rs) == 0,
        b.backoff_level == 0 && !b.probe_next,
{
    lemma_counts(rs);
}

/// No high water mark falls in a round, and nothing else of a trail changes.
pub proof fn law_rounds_only_raise_trails(
    a: Shared,
    b: Shared,
    rs: Seq<QuoteResult>,
    round_ms: u128,
    now: u64,
    i: int,
)
    requires
        took_quotes(a, b, rs, round_ms, now),
        0 <= i < a.trails@.len(),
        !num::is_nan(a.trails@[i].high_water),
    ensures
        b.trails@.len() == a.trails@.len(),
        num::at_most(a.trails@[i].high_water, b.trails@[i].high_water),
        b.trails@[i] == (Trail { high_water: b.trails@[i].high_water, ..a.trails@[i] }),
{
    match price_for(a.trails@, i, b.quotes@) {
        Some(m) => {
            trail::law_high_water_never_falls(a.trails@[i].high_water, m);
        },
        None => {},
    }
}

proof fn lemma_quoted_names_stay(names: Map<Seq<char>, Seq<char>>, rs: Seq<QuoteResult>)
    ensures
        names.dom().subset_of(with_quoted(names, rs).dom()),
    decreases rs.len(),
{
    if rs.len() > 0 {
        lemma_quoted_names_stay(names, rs.drop_last());
    }
}

proof fn lemma_quotes_stay(quotes: Map<Seq<char>, Quote>, rs: Seq<QuoteResult>)
    ensures
        quotes.dom().subset_of(requoted(quotes, rs).dom()),
    decreases rs.len(),
{
    if rs.len() > 0 {
        lemma_quotes_stay(quotes, rs.drop_last());
    }
}

/// What is known of an instrument, if anything.
pub open spec fn quote_in(quotes: Map<Seq<char>, Quote>, isin: Seq<char>) -> Option<Quote> {
    if quotes.dom().contains(isin) {
        Some(quotes[isin])
    } else {
        None
    }
}

proof fn lemma_requoted(
    quotes: Map<Seq<char>, Quote>,
    rs: Seq<QuoteResult>,
    isin: Seq<char>,
    i: int,
)
    requires
        -1 <= i < rs.len(),
        forall|j: int|
            0 <= j < rs.len() && j != i ==> (#[trigger] rs[j]).isin@ != isin,
        i >= 0 ==> rs[i].isin@ == isin,
    ensures
        quote_in(requoted(quotes, rs), isin) == if i >= 0 && rs[i].quote is Some {
            rs[i].quote
        } else {
            quote_in(quotes, isin)
        },
    decreases rs.len(),
{
    if rs.len() > 0 {
        let rest = rs.drop_last();
        let n = rs.len() - 1;
        assert(rs[n] == rs.last());
        assert forall|j: int| 0 <= j < rest.len() && j != i implies (#[trigger] rest[j]).isin@
            != isin by {
            assert(rest[j] == rs[j]);
        }
        lemma_requoted(
            quotes,
            rest,
            isin,
            if i == n {
                -1
            } else {
                i
            },
        );
    }
}

/// In a round that asked for no instrument twice, one that answered has its new
/// quote, and one that failed keeps what it had, as does one that was not asked
/// for.
pub proof fn law_a_round_replaces_what_answered(
    a: Shared,
    b: Shared,
    rs: Seq<QuoteResult>,
    round_ms: u128,
    now: u64,
    isin: Seq<char>,
)
    requires
        took_quotes(a, b, rs, round_ms, now),
        forall|i: int, j: int|
            0 <= i < j < rs.len() ==> (#[trigger] rs[i]).isin@ != (#[trigger] rs[j]).isin@,
    ensures
        rs.len() > 0 ==> b.last_round_calls == rs.len(),
        forall|i: int|
            0 <= i < rs.len() ==> quote_in(b.quotes@, (#[trigger] rs[i]).isin@) == if rs[i].quote
                is Some {
                rs[i].quote
            } else {
                quote_in(a.quotes@, rs[i].isin@)
            },
        (forall|i: int| 0 <= i < rs.len() ==> (#[trigger] rs[i]).isin@ != isin) ==> quote_in(
            b.quotes@,
            isin,
        ) == quote_in(a.quotes@, isin),
{
    assert forall|i: int| 0 <= i < rs.len() implies quote_in(
        b.quotes@,
        (#[trigger] rs[i]).isin@,
    ) == if rs[i].quote is Some {
        rs[i].quote
    } else {
        quote_in(a.quotes@, rs[i].isin@)
    } by {
        lemma_requoted(a.quotes@, rs, rs[i].isin@, i);
    }
    if forall|i: int| 0 <= i < rs.len() ==> (#[trigger] rs[i]).isin@ != isin {
        lemma_requoted(a.quotes@, rs, isin, -1);
    }
}

/// No instrument that has a name or a quote loses it in a round.
pub proof fn law_a_round_forgets_nothing(
    a: Shared,
    b: Shared,
    rs: Seq<QuoteResult>,
    round_ms: u128,
    now: u64,
)
    requires
        took_quotes(a, b, rs, round_ms, now),
    ensures
        worker::names_in(a.names).dom().subset_of(worker::names_in(b.names).dom()),
        a.quotes@.dom().subset_of(b.quotes@.dom()),
{
    lemma_quoted_names_stay(worker::names_in(a.names), rs);
    lemma_quotes_stay(a.quotes@, rs);
}

} // verus!
