//! The account: balances, and returns by timeframe.

use crate::json::{self, Json, JsonView};
use crate::laws::balances;
use crate::num::Num;
use crate::sc::{self, array_at, number, words, words_else_empty};
use crate::seqs;
use crate::text::same_text;
use vstd::prelude::*;
use vstd::string::*;

verus! {

#[derive(Debug, Clone)]
pub struct Account {
    pub cash: Option<Num>,
    pub buying_power: Option<Num>,
    pub pending_buy_orders: Option<Num>,
    pub possible_taxes: Option<Num>,
    pub loaned: Option<Num>,
    pub securities: Option<Num>,
    pub crypto: Option<Num>,
    pub total: Option<Num>,
    /// The absolute return by timeframe, in the currency of the account.
    pub performance: Vec<(String, Num)>,
    pub valuation_ts: String,
    pub currency: String,
}

/// The views of a list of returns.
pub open spec fn return_views(p: Seq<(String, Num)>) -> Seq<(Seq<char>, Num)> {
    p.map_values(|r: (String, Num)| (r.0@, r.1))
}

/// The return that an item of the payload gives; one that lacks its timeframe or
/// its number gives none.
pub open spec fn return_in(v: JsonView) -> Option<(Seq<char>, Num)> {
    match (sc::words_at(v, "timeframe"@), sc::number_at(v, "simpleAbsoluteReturn"@)) {
        (Some(t), Some(n)) => Some((t, n)),
        _ => None,
    }
}

/// Whether an account knows nothing.
pub open spec fn is_unknown(a: Account) -> bool {
    &&& a.cash is None
    &&& a.buying_power is None
    &&& a.pending_buy_orders is None
    &&& a.possible_taxes is None
    &&& a.loaned is None
    &&& a.securities is None
    &&& a.crypto is None
    &&& a.total is None
    &&& a.performance@.len() == 0
    &&& a.valuation_ts@.len() == 0
    &&& a.currency@.len() == 0
}

/// Whether `a` is `b` with what an overview says put in.
pub open spec fn is_overview_of(a: Account, b: Account, v: JsonView) -> bool {
    &&& a.securities == sc::number_at(v, "valuation/securities"@)
    &&& a.crypto == sc::number_at(v, "valuation/crypto"@)
    &&& a.total == sc::number_at(v, "valuation/total"@)
    &&& a.valuation_ts@ == sc::words_or_empty(v, "timestamps/valuation_timestamp_utc"@)
    &&& return_views(a.performance@) == sc::list_at(v, "performance"@).filter_map(
        |p: JsonView| return_in(p),
    )
    &&& a.currency@ == if b.currency@.len() == 0 {
        "EUR"@
    } else {
        b.currency@
    }
    &&& a.cash == b.cash
    &&& a.buying_power == b.buying_power
    &&& a.pending_buy_orders == b.pending_buy_orders
    &&& a.possible_taxes == b.possible_taxes
    &&& a.loaned == b.loaned
}

/// `b` with what a cash breakdown says put in.
pub open spec fn with_cash(b: Account, v: JsonView) -> Account {
    Account {
        cash: sc::number_at(v, "cash_balance"@),
        buying_power: sc::number_at(v, "buying_power"@),
        pending_buy_orders: sc::number_at(v, "pending_buy_orders_amount"@),
        possible_taxes: sc::number_at(v, "possible_taxes"@),
        loaned: sc::number_at(v, "loaned"@),
        ..b
    }
}

/// The timeframes, shortest first.
pub open spec fn timeframe_name(k: int) -> Seq<char> {
    if k == 0 {
        "INTRADAY"@
    } else if k == 1 {
        "TWO_DAYS"@
    } else if k == 2 {
        "ONE_WEEK"@
    } else if k == 3 {
        "ONE_MONTH"@
    } else if k == 4 {
        "THREE_MONTHS"@
    } else if k == 5 {
        "SIX_MONTHS"@
    } else if k == 6 {
        "ONE_YEAR"@
    } else {
        "MAX"@
    }
}

/// Whether a name is none of the first `k` timeframes.
pub open spec fn is_other(name: Seq<char>, k: int) -> bool {
    forall|j: int| 0 <= j < k ==> name != #[trigger] timeframe_name(j)
}

/// The returns for the first `k` timeframes, one timeframe after the other.
pub open spec fn by_timeframe(p: Seq<(Seq<char>, Num)>, k: int) -> Seq<(Seq<char>, Num)>
    decreases k,
{
    if k <= 0 {
        Seq::empty()
    } else {
        by_timeframe(p, k - 1) + p.filter(|r: (Seq<char>, Num)| r.0 == timeframe_name(k - 1))
    }
}

/// The returns, shortest timeframe first, and behind them those for timeframes
/// that are not known. Returns for the same timeframe stay in the order they are
/// in.
pub open spec fn shortest_first(p: Seq<(Seq<char>, Num)>) -> Seq<(Seq<char>, Num)> {
    by_timeframe(p, 8) + p.filter(|r: (Seq<char>, Num)| is_other(r.0, 8))
}

impl Default for Account {
    fn default() -> (r: Account)
        ensures
            is_unknown(r),
    {
        Account {
            cash: None,
            buying_power: None,
            pending_buy_orders: None,
            possible_taxes: None,
            loaned: None,
            securities: None,
            crypto: None,
            total: None,
            performance: Vec::new(),
            valuation_ts: String::new(),
            currency: String::new(),
        }
    }
}

fn timeframe_word(k: usize) -> (r: &'static str)
    ensures
        r@ == timeframe_name(k as int),
{
    match k {
        0 => "INTRADAY",
        1 => "TWO_DAYS",
        2 => "ONE_WEEK",
        3 => "ONE_MONTH",
        4 => "THREE_MONTHS",
        5 => "SIX_MONTHS",
        6 => "ONE_YEAR",
        _ => "MAX",
    }
}

impl Account {
    pub fn apply_overview(&mut self, v: &Json)
        ensures
            is_overview_of(*final(self), *old(self), v.view()),
            balances::says_overview(*final(self), v.view()),
    {
        proof {
            let before = *old(self);
            assert forall|a: Account, w: JsonView| #[trigger]
                is_overview_of(a, before, w) implies balances::says_overview(a, w) by {
                balances::law_the_overview_is_read_by_name(a, before, w);
            }
        }
        let mut performance: Vec<(String, Num)> = Vec::new();
        let ghost all = sc::list_at(v.view(), "performance"@);
        let ghost f = |p: JsonView| return_in(p);
        match array_at(v, "performance") {
            Some(a) => {
                assert(all.take(0) =~= Seq::empty());
                assert(return_views(performance@) =~= Seq::empty());
                for i in 0..a.len()
                    invariant
                        all == json::views(a@),
                        f == (|p: JsonView| return_in(p)),
                        return_views(performance@) == all.take(i as int).filter_map(f),
                {
                    let p = &a[i];
                    assert(all.take(i + 1).drop_last() =~= all.take(i as int));
                    assert(all.take(i + 1).last() == p.view());
                    let ghost before = return_views(performance@);
                    match (words(p, "timeframe"), number(p, "simpleAbsoluteReturn")) {
                        (Some(t), Some(n)) => {
                            assert(f(p.view()) == Some((t@, n)));
                            performance.push((t, n));
                            assert(return_views(performance@) =~= before + seq![(t@, n)]);
                        },
                        _ => {
                            assert(f(p.view()) is None);
                        },
                    }
                }
                assert(all.take(a@.len() as int) =~= all);
            },
            None => {
                assert(return_views(performance@) =~= Seq::empty());
            },
        }
        self.securities = number(v, "valuation/securities");
        self.crypto = number(v, "valuation/crypto");
        self.total = number(v, "valuation/total");
        self.valuation_ts = words_else_empty(v, "timestamps/valuation_timestamp_utc");
        self.performance = performance;
        if self.currency.as_str().is_empty() {
            self.currency = "EUR".to_owned();
        }
    }

    pub fn apply_cash(&mut self, v: &Json)
        ensures
            *final(self) == with_cash(*old(self), v.view()),
            balances::says_cash(*final(self), v.view()),
    {
        self.cash = number(v, "cash_balance");
        self.buying_power = number(v, "buying_power");
        self.pending_buy_orders = number(v, "pending_buy_orders_amount");
        self.possible_taxes = number(v, "possible_taxes");
        self.loaned = number(v, "loaned");
        proof {
            balances::law_each_balance_is_its_own_member(*old(self), v.view());
        }
    }

    /// The returns come in no order; they are read shortest timeframe first.
    pub fn performance_ordered(&self) -> (r: Vec<(String, Num)>)
        ensures
            return_views(r@) == shortest_first(return_views(self.performance@)),
    {
        let mut out: Vec<(String, Num)> = Vec::new();
        let n: usize = self.performance.len();
        let ghost all = return_views(self.performance@);
        assert(return_views(out@) =~= Seq::empty());
        for k in 0..8usize
            invariant
                n == all.len(),
                all == return_views(self.performance@),
                return_views(out@) == by_timeframe(all, k as int),
        {
            let name = timeframe_word(k);
            let ghost f = |r: (Seq<char>, Num)| r.0 == timeframe_name(k as int);
            let ghost done = return_views(out@);
            proof {
                seqs::lemma_filter_none(all, f);
                assert(done + Seq::<(Seq<char>, Num)>::empty() =~= done);
            }
            for i in 0..n
                invariant
                    n == all.len(),
                    all == return_views(self.performance@),
                    name@ == timeframe_name(k as int),
                    f == (|r: (Seq<char>, Num)| r.0 == timeframe_name(k as int)),
                    return_views(out@) == done + all.take(i as int).filter(f),
            {
                let r = &self.performance[i];
                proof {
                    assert(all[i as int] == (r.0@, r.1));
                    seqs::lemma_filter_next(all, f, i as int);
                }
                let ghost before = return_views(out@);
                if same_text(r.0.as_str(), name) {
                    out.push((r.0.clone(), r.1));
                    assert(return_views(out@) =~= before.push(all[i as int]));
                }
                assert(return_views(out@) =~= done + all.take(i + 1).filter(f));
            }
            assert(all.take(n as int) =~= all);
        }
        let ghost f = |r: (Seq<char>, Num)| is_other(r.0, 8);
        let ghost done = return_views(out@);
        proof {
            seqs::lemma_filter_none(all, f);
            assert(done + Seq::<(Seq<char>, Num)>::empty() =~= done);
        }
        for i in 0..n
            invariant
                n == all.len(),
                all == return_views(self.performance@),
                f == (|r: (Seq<char>, Num)| is_other(r.0, 8)),
                return_views(out@) == done + all.take(i as int).filter(f),
        {
            let r = &self.performance[i];
            proof {
                assert(all[i as int] == (r.0@, r.1));
                seqs::lemma_filter_next(all, f, i as int);
            }
            let mut other = true;
            for k in 0..8usize
                invariant
                    other == is_other(r.0@, k as int),
            {
                if same_text(r.0.as_str(), timeframe_word(k)) {
                    assert(r.0@ == timeframe_name(k as int));
                    other = false;
                }
            }
            let ghost before = return_views(out@);
            if other {
                out.push((r.0.clone(), r.1));
                assert(return_views(out@) =~= before.push(all[i as int]));
            }
            assert(return_views(out@) =~= done + all.take(i + 1).filter(f));
        }
        assert(all.take(n as int) =~= all);
        out
    }
}

/// The names of the timeframes differ.
proof fn lemma_names_differ(i: int, j: int)
    requires
        0 <= i < j < 8,
    ensures
        timeframe_name(i) != timeframe_name(j),
{
    reveal_strlit("INTRADAY");
    reveal_strlit("TWO_DAYS");
    reveal_strlit("ONE_WEEK");
    reveal_strlit("ONE_MONTH");
    reveal_strlit("THREE_MONTHS");
    reveal_strlit("SIX_MONTHS");
    reveal_strlit("ONE_YEAR");
    reveal_strlit("MAX");
    assert("INTRADAY"@[0] == 'I');
    assert("TWO_DAYS"@[0] == 'T');
    assert("ONE_WEEK"@[0] == 'O' && "ONE_WEEK"@[4] == 'W');
    assert("ONE_YEAR"@[0] == 'O' && "ONE_YEAR"@[4] == 'Y');
    assert("ONE_MONTH"@.len() == 9 && "THREE_MONTHS"@.len() == 12 && "SIX_MONTHS"@.len() == 10);
    assert("MAX"@.len() == 3);
    assert("INTRADAY"@.len() == 8 && "TWO_DAYS"@.len() == 8);
    assert("ONE_WEEK"@.len() == 8 && "ONE_YEAR"@.len() == 8);
}

proof fn lemma_one_more(p: Seq<(Seq<char>, Num)>, e: (Seq<char>, Num), k: int)
    requires
        0 <= k <= 8,
    ensures
        by_timeframe(p.push(e), k).to_multiset() == if is_other(e.0, k) {
            by_timeframe(p, k).to_multiset()
        } else {
            by_timeframe(p, k).to_multiset().insert(e)
        },
    decreases k,
{
    broadcast use vstd::seq_lib::group_to_multiset_ensures;

    if k > 0 {
        lemma_one_more(p, e, k - 1);
        let f = |r: (Seq<char>, Num)| r.0 == timeframe_name(k - 1);
        seqs::lemma_filter_push(p, f, e);
        vstd::seq_lib::lemma_multiset_commutative(by_timeframe(p, k - 1), p.filter(f));
        vstd::seq_lib::lemma_multiset_commutative(
            by_timeframe(p.push(e), k - 1),
            p.push(e).filter(f),
        );
        if e.0 == timeframe_name(k - 1) {
            assert forall|j: int| 0 <= j < k - 1 implies e.0 != #[trigger] timeframe_name(j) by {
                lemma_names_differ(j, k - 1);
            }
            assert(is_other(e.0, k - 1));
            assert(!is_other(e.0, k));
        } else {
            assert(is_other(e.0, k) == is_other(e.0, k - 1));
        }
        assert(by_timeframe(p.push(e), k).to_multiset() =~= if is_other(e.0, k) {
            by_timeframe(p, k).to_multiset()
        } else {
            by_timeframe(p, k).to_multiset().insert(e)
        });
    } else {
        assert(is_other(e.0, 0));
    }
}

/// Putting the returns in order neither loses nor adds one.
pub proof fn law_order_keeps_every_return(p: Seq<(Seq<char>, Num)>)
    ensures
        shortest_first(p).to_multiset() == p.to_multiset(),
        shortest_first(p).len() == p.len(),
    decreases p.len(),
{
    broadcast use vstd::seq_lib::group_to_multiset_ensures;

    let f = |r: (Seq<char>, Num)| is_other(r.0, 8);
    if p.len() == 0 {
        assert(p =~= Seq::empty());
        assert(p.take(0) =~= p);
        seqs::lemma_filter_none(p, f);
        lemma_nothing_to_order(p, 8);
        assert(shortest_first(p) =~= p);
    } else {
        let rest = p.drop_last();
        let e = p.last();
        law_order_keeps_every_return(rest);
        assert(rest.push(e) =~= p);
        lemma_one_more(rest, e, 8);
        seqs::lemma_filter_push(rest, f, e);
        vstd::seq_lib::lemma_multiset_commutative(by_timeframe(rest, 8), rest.filter(f));
        vstd::seq_lib::lemma_multiset_commutative(by_timeframe(p, 8), p.filter(f));
        assert(shortest_first(p).to_multiset() =~= shortest_first(rest).to_multiset().insert(e));
        assert(p.to_multiset() =~= rest.to_multiset().insert(e));
    }
    assert(shortest_first(p).len() == shortest_first(p).to_multiset().len());
    assert(p.len() == p.to_multiset().len());
}

proof fn lemma_nothing_to_order(p: Seq<(Seq<char>, Num)>, k: int)
    requires
        p.len() == 0,
        0 <= k,
    ensures
        by_timeframe(p, k).len() == 0,
    decreases k,
{
    if k > 0 {
        lemma_nothing_to_order(p, k - 1);
        let f = |r: (Seq<char>, Num)| r.0 == timeframe_name(k - 1);
        assert(p.take(0) =~= p);
        seqs::lemma_filter_none(p, f);
    }
}

} // verus!
