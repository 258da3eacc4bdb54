//! What the account says, by the members of the payloads it was read from.

use crate::json::{self, JsonView};
use crate::laws::reading::{
    gives_list, gives_number, gives_text, gives_words, leads, lemma_given, lemma_longer_path,
    lemma_one_list, lemma_one_name,
};
use crate::model::Account;
use crate::model::account;
use crate::num::Num;
use crate::sc;
use vstd::prelude::*;

verus! {

/// Whether each balance of an account is what the member of its own name says.
pub open spec fn says_cash(a: Account, v: JsonView) -> bool {
    &&& gives_number(v, seq!["cash_balance"@], a.cash)
    &&& gives_number(v, seq!["buying_power"@], a.buying_power)
    &&& gives_number(v, seq!["pending_buy_orders_amount"@], a.pending_buy_orders)
    &&& gives_number(v, seq!["possible_taxes"@], a.possible_taxes)
    &&& gives_number(v, seq!["loaned"@], a.loaned)
}

/// A breakdown of the cash gives each balance from its own member, and leaves the rest
/// of the account as it was.
pub proof fn law_each_balance_is_its_own_member(b: Account, v: JsonView)
    ensures
        says_cash(account::with_cash(b, v), v),
        account::with_cash(b, v).securities == b.securities,
        account::with_cash(b, v).crypto == b.crypto,
        account::with_cash(b, v).total == b.total,
        account::with_cash(b, v).performance == b.performance,
        account::with_cash(b, v).valuation_ts == b.valuation_ts,
        account::with_cash(b, v).currency == b.currency,
{
    path_cash_balance();
    lemma_given(v, "cash_balance"@, seq!["cash_balance"@]);
    path_buying_power();
    lemma_given(v, "buying_power"@, seq!["buying_power"@]);
    path_pending_buy_orders_amount();
    lemma_given(v, "pending_buy_orders_amount"@, seq!["pending_buy_orders_amount"@]);
    path_possible_taxes();
    lemma_given(v, "possible_taxes"@, seq!["possible_taxes"@]);
    path_loaned();
    lemma_given(v, "loaned"@, seq!["loaned"@]);
}

/// A balance that the breakdown gives as a number is that number, whatever else the
/// breakdown says.
pub proof fn law_a_balance_that_is_a_number(b: Account, v: JsonView, t: Seq<char>, n: Num)
    ensures
        leads(v, seq!["cash_balance"@], JsonView::Number(t, Some(n)))
            ==> account::with_cash(b, v).cash == Some(n),
        leads(v, seq!["buying_power"@], JsonView::Number(t, Some(n)))
            ==> account::with_cash(b, v).buying_power == Some(n),
        leads(v, seq!["pending_buy_orders_amount"@], JsonView::Number(t, Some(n)))
            ==> account::with_cash(b, v).pending_buy_orders == Some(n),
        leads(v, seq!["possible_taxes"@], JsonView::Number(t, Some(n)))
            ==> account::with_cash(b, v).possible_taxes == Some(n),
        leads(v, seq!["loaned"@], JsonView::Number(t, Some(n)))
            ==> account::with_cash(b, v).loaned == Some(n),
{
    law_each_balance_is_its_own_member(b, v);
}

/// Two breakdowns that differ in one member alone agree in every balance but the one
/// that is read from it.
pub proof fn law_a_balance_ignores_other_members(
    b: Account,
    f: Seq<(Seq<char>, JsonView)>,
    i: int,
    w: JsonView,
)
    requires
        0 <= i < f.len(),
    ensures
        ({
            let x = account::with_cash(b, JsonView::Object(f));
            let y = account::with_cash(b, JsonView::Object(f.update(i, (f[i].0, w))));
            &&& f[i].0 != "cash_balance"@ ==> x.cash == y.cash
            &&& f[i].0 != "buying_power"@ ==> x.buying_power == y.buying_power
            &&& f[i].0 != "pending_buy_orders_amount"@
                ==> x.pending_buy_orders == y.pending_buy_orders
            &&& f[i].0 != "possible_taxes"@ ==> x.possible_taxes == y.possible_taxes
            &&& f[i].0 != "loaned"@ ==> x.loaned == y.loaned
        }),
{
    if f[i].0 != "cash_balance"@ {
        path_cash_balance();
        lemma_other_member(f, i, w, "cash_balance"@);
    }
    if f[i].0 != "buying_power"@ {
        path_buying_power();
        lemma_other_member(f, i, w, "buying_power"@);
    }
    if f[i].0 != "pending_buy_orders_amount"@ {
        path_pending_buy_orders_amount();
        lemma_other_member(f, i, w, "pending_buy_orders_amount"@);
    }
    if f[i].0 != "possible_taxes"@ {
        path_possible_taxes();
        lemma_other_member(f, i, w, "possible_taxes"@);
    }
    if f[i].0 != "loaned"@ {
        path_loaned();
        lemma_other_member(f, i, w, "loaned"@);
    }
}

/// Changing a member of another name does not change what a name gives.
proof fn lemma_other_member(f: Seq<(Seq<char>, JsonView)>, i: int, w: JsonView, key: Seq<char>)
    requires
        0 <= i < f.len(),
        f[i].0 != key,
        sc::segments(key) == seq![key],
    ensures
        sc::number_at(JsonView::Object(f), key) == sc::number_at(
            JsonView::Object(f.update(i, (f[i].0, w))),
            key,
        ),
{
    lemma_other_field(f, i, w, key);
    let v = JsonView::Object(f);
    let u = JsonView::Object(f.update(i, (f[i].0, w)));
    assert(json::member(v, key) == json::member(u, key));
    assert(seq![key].drop_first() =~= Seq::<Seq<char>>::empty());
    reveal_with_fuel(sc::walk, 3);
    assert(sc::walk(v, seq![key]) == sc::walk(u, seq![key]));
}

proof fn lemma_other_field(f: Seq<(Seq<char>, JsonView)>, i: int, w: JsonView, key: Seq<char>)
    requires
        0 <= i < f.len(),
        f[i].0 != key,
    ensures
        json::field(f, key) == json::field(f.update(i, (f[i].0, w)), key),
    decreases f.len(),
{
    let g = f.update(i, (f[i].0, w));
    if i == 0 {
        assert(g.drop_first() =~= f.drop_first());
    } else if f[0].0 != key {
        lemma_other_field(f.drop_first(), i - 1, w, key);
        assert(g.drop_first() =~= f.drop_first().update(i - 1, (f[i].0, w)));
    }
}

/// Whether the valuation of an account is what an overview says.
pub open spec fn says_overview(a: Account, v: JsonView) -> bool {
    &&& gives_number(v, seq!["valuation"@, "securities"@], a.securities)
    &&& gives_number(v, seq!["valuation"@, "crypto"@], a.crypto)
    &&& gives_number(v, seq!["valuation"@, "total"@], a.total)
    &&& gives_text(v, seq!["timestamps"@, "valuation_timestamp_utc"@], a.valuation_ts@)
}

/// An overview gives each part of the valuation from its own member and the returns in
/// the order of its list. It leaves the cash as it was, and the currency, which is the
/// euro where none was known.
pub proof fn law_the_overview_is_read_by_name(a: Account, b: Account, v: JsonView)
    requires
        account::is_overview_of(a, b, v),
    ensures
        says_overview(a, v),
        forall|list: Seq<JsonView>| #[trigger] gives_list(v, seq!["performance"@], list)
            ==> account::return_views(a.performance@)
                == list.filter_map(|p: JsonView| account::return_in(p)),
        a.cash == b.cash,
        a.buying_power == b.buying_power,
        a.pending_buy_orders == b.pending_buy_orders,
        a.possible_taxes == b.possible_taxes,
        a.loaned == b.loaned,
        b.currency@.len() > 0 ==> a.currency@ == b.currency@,
        b.currency@.len() == 0 ==> a.currency@ == "EUR"@,
{
    path_valuation_securities();
    lemma_given(v, "valuation/securities"@, seq!["valuation"@, "securities"@]);
    path_valuation_crypto();
    lemma_given(v, "valuation/crypto"@, seq!["valuation"@, "crypto"@]);
    path_valuation_total();
    lemma_given(v, "valuation/total"@, seq!["valuation"@, "total"@]);
    path_timestamps_valuation_timestamp_utc();
    lemma_given(
        v,
        "timestamps/valuation_timestamp_utc"@,
        seq!["timestamps"@, "valuation_timestamp_utc"@],
    );
    path_performance();
    lemma_given(v, "performance"@, seq!["performance"@]);
    assert forall|list: Seq<JsonView>| #[trigger] gives_list(v, seq!["performance"@], list) implies list
        == sc::list_at(v, "performance"@) by {
        lemma_one_list(v, seq!["performance"@], list, sc::list_at(v, "performance"@));
    }
}

/// A return is given by a row that has a timeframe and an amount, and is those two.
pub proof fn law_a_return_needs_both(p: JsonView)
    ensures
        match account::return_in(p) {
            Some(r) => gives_words(p, seq!["timeframe"@], Some(r.0))
                && gives_number(p, seq!["simpleAbsoluteReturn"@], Some(r.1)),
            None => gives_words(p, seq!["timeframe"@], None)
                || gives_number(p, seq!["simpleAbsoluteReturn"@], None),
        },
{
    path_timeframe();
    lemma_given(p, "timeframe"@, seq!["timeframe"@]);
    path_simple_absolute_return();
    lemma_given(p, "simpleAbsoluteReturn"@, seq!["simpleAbsoluteReturn"@]);
}

proof fn path_cash_balance()
    ensures
        sc::segments("cash_balance"@) == seq!["cash_balance"@],
{
    reveal_strlit("cash_balance");
    lemma_one_name("cash_balance"@);
}

proof fn path_buying_power()
    ensures
        sc::segments("buying_power"@) == seq!["buying_power"@],
{
    reveal_strlit("buying_power");
    lemma_one_name("buying_power"@);
}

proof fn path_pending_buy_orders_amount()
    ensures
        sc::segments("pending_buy_orders_amount"@) == seq!["pending_buy_orders_amount"@],
{
    reveal_strlit("pending_buy_orders_amount");
    lemma_one_name("pending_buy_orders_amount"@);
}

proof fn path_possible_taxes()
    ensures
        sc::segments("possible_taxes"@) == seq!["possible_taxes"@],
{
    reveal_strlit("possible_taxes");
    lemma_one_name("possible_taxes"@);
}

proof fn path_loaned()
    ensures
        sc::segments("loaned"@) == seq!["loaned"@],
{
    reveal_strlit("loaned");
    lemma_one_name("loaned"@);
}

proof fn path_valuation_securities()
    ensures
        sc::segments("valuation/securities"@) == seq!["valuation"@, "securities"@],
{
    reveal_strlit("securities");
    lemma_one_name("securities"@);
    reveal_strlit("valuation");
    reveal_strlit("valuation/securities");
    assert("valuation/securities"@ =~= "valuation"@ + seq!['/'] + "securities"@);
    lemma_longer_path("valuation/securities"@, "valuation"@, "securities"@, seq!["securities"@]);
    assert(sc::segments("valuation/securities"@) =~= seq!["valuation"@, "securities"@]);
}

proof fn path_valuation_crypto()
    ensures
        sc::segments("valuation/crypto"@) == seq!["valuation"@, "crypto"@],
{
    reveal_strlit("crypto");
    lemma_one_name("crypto"@);
    reveal_strlit("valuation");
    reveal_strlit("valuation/crypto");
    assert("valuation/crypto"@ =~= "valuation"@ + seq!['/'] + "crypto"@);
    lemma_longer_path("valuation/crypto"@, "valuation"@, "crypto"@, seq!["crypto"@]);
    assert(sc::segments("valuation/crypto"@) =~= seq!["valuation"@, "crypto"@]);
}

proof fn path_valuation_total()
    ensures
        sc::segments("valuation/total"@) == seq!["valuation"@, "total"@],
{
    reveal_strlit("total");
    lemma_one_name("total"@);
    reveal_strlit("valuation");
    reveal_strlit("valuation/total");
    assert("valuation/total"@ =~= "valuation"@ + seq!['/'] + "total"@);
    lemma_longer_path("valuation/total"@, "valuation"@, "total"@, seq!["total"@]);
    assert(sc::segments("valuation/total"@) =~= seq!["valuation"@, "total"@]);
}

proof fn path_timestamps_valuation_timestamp_utc()
    ensures
        sc::segments("timestamps/valuation_timestamp_utc"@)
            == seq!["timestamps"@, "valuation_timestamp_utc"@],
{
    reveal_strlit("valuation_timestamp_utc");
    lemma_one_name("valuation_timestamp_utc"@);
    reveal_strlit("timestamps");
    reveal_strlit("timestamps/valuation_timestamp_utc");
    assert("timestamps/valuation_timestamp_utc"@
        =~= "timestamps"@ + seq!['/'] + "valuation_timestamp_utc"@);
    lemma_longer_path(
        "timestamps/valuation_timestamp_utc"@,
        "timestamps"@,
        "valuation_timestamp_utc"@,
        seq!["valuation_timestamp_utc"@],
    );
    assert(sc::segments("timestamps/valuation_timestamp_utc"@)
        =~= seq!["timestamps"@, "valuation_timestamp_utc"@]);
}

proof fn path_performance()
    ensures
        sc::segments("performance"@) == seq!["performance"@],
{
    reveal_strlit("performance");
    lemma_one_name("performance"@);
}

proof fn path_timeframe()
    ensures
        sc::segments("timeframe"@) == seq!["timeframe"@],
{
    reveal_strlit("timeframe");
    lemma_one_name("timeframe"@);
}

proof fn path_simple_absolute_return()
    ensures
        sc::segments("simpleAbsoluteReturn"@) == seq!["simpleAbsoluteReturn"@],
{
    reveal_strlit("simpleAbsoluteReturn");
    lemma_one_name("simpleAbsoluteReturn"@);
}

} // verus!
