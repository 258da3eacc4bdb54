//! Arming trails, and keeping them over a restart.
//!
//! Of a trail only the high water mark could not be had back from the broker, so
//! the trails are written down whenever one of them changes.

use crate::json::{self, Json, JsonView};
use crate::model::trail;
use crate::model::Trail;
use crate::num::{self, Num};
use crate::sc::{self, number, number_else_zero, words};
use crate::text::same_text;
use crate::worker::quotes;
use crate::worker::{self, linked, Shared};
use vstd::prelude::*;
use vstd::string::*;

verus! {

/// What a trail is.
pub struct TrailView {
    pub isin: Seq<char>,
    pub distance: Num,
    pub percent: bool,
    pub high_water: Num,
    pub min_step: Num,
}

pub open spec fn trail_view(t: Trail) -> TrailView {
    TrailView {
        isin: t.isin@,
        distance: t.distance,
        percent: t.percent,
        high_water: t.high_water,
        min_step: t.min_step,
    }
}

pub open spec fn trail_views(ts: Seq<Trail>) -> Seq<TrailView> {
    ts.map_values(|t: Trail| trail_view(t))
}

/// The trail that a stored row holds. A row without an instrument or a distance,
/// or with a distance that makes no sense, holds none.
pub open spec fn trail_in(v: JsonView) -> Option<TrailView> {
    match (sc::words_at(v, "isin"@), sc::number_at(v, "distance"@)) {
        (Some(isin), Some(distance)) => {
            let percent = match json::member(v, "percent"@) {
                Some(JsonView::Bool(b)) => b,
                _ => true,
            };
            if trail::is_distance(distance, percent) {
                Some(
                    TrailView {
                        isin,
                        distance,
                        percent,
                        high_water: sc::number_or_zero(v, "high_water"@),
                        min_step: num::ratio(1, 1000),
                    },
                )
            } else {
                None
            }
        },
        _ => None,
    }
}

/// The trails that stored rows hold.
pub open spec fn trails_in(v: JsonView) -> Seq<TrailView> {
    match v {
        JsonView::Array(rows) => rows.filter_map(|r: JsonView| trail_in(r)),
        _ => Seq::empty(),
    }
}

/// The trails in a stored text, given what reading it as JSON gave.
pub open spec fn stored_trails(parsed: Result<JsonView, Seq<char>>) -> Seq<TrailView> {
    match parsed {
        Ok(v) => trails_in(v),
        Err(_) => Seq::empty(),
    }
}

fn read_trail(v: &Json) -> (r: Option<Trail>)
    ensures
        (match r {
            Some(t) => trail_in(v.view()) == Some(trail_view(t)),
            None => trail_in(v.view()) is None,
        }),
{
    let isin = words(v, "isin")?;
    let distance: Num = number(v, "distance")?;
    let percent = match v.get("percent") {
        Some(j) => match j.as_bool() {
            Some(b) => b,
            None => true,
        },
        None => true,
    };
    let t = Trail::new(isin.as_str(), distance, percent, number_else_zero(v, "high_water"));
    if t.valid() {
        Some(t)
    } else {
        None
    }
}

/// The trails in rows that were read.
pub fn read_trails(v: &Json) -> (r: Vec<Trail>)
    ensures
        trail_views(r@) == trails_in(v.view()),
{
    let mut out: Vec<Trail> = Vec::new();
    assert(trail_views(out@) =~= Seq::empty());
    match v.as_array() {
        Some(a) => {
            let ghost all = json::views(a@);
            let ghost f = |r: JsonView| trail_in(r);
            assert(all.take(0) =~= Seq::empty());
            for i in 0..a.len()
                invariant
                    all == json::views(a@),
                    f == (|r: JsonView| trail_in(r)),
                    trail_views(out@) == all.take(i as int).filter_map(f),
            {
                assert(all.take(i + 1).drop_last() =~= all.take(i as int));
                assert(all.take(i + 1).last() == a@[i as int].view());
                match read_trail(&a[i]) {
                    Some(t) => {
                        let ghost before = trail_views(out@);
                        assert(f(all[i as int]) == Some(trail_view(t)));
                        out.push(t);
                        assert(trail_views(out@) =~= before + seq![trail_view(t)]);
                    },
                    None => {
                        assert(f(all[i as int]) is None);
                    },
                }
            }
            assert(all.take(all.len() as int) =~= all);
        },
        None => {},
    }
    out
}

/// The trails in a stored text, and none where it cannot be read.
pub fn load_trails(stored: &str) -> (r: Vec<Trail>)
    ensures
        trail_views(r@) == stored_trails(json::parse_outcome(stored@)),
{
    match json::parse(stored) {
        Ok(v) => read_trails(&v),
        Err(_) => {
            let none: Vec<Trail> = Vec::new();
            assert(trail_views(none@) =~= Seq::empty());
            none
        },
    }
}

/// The row that a trail is stored as.
pub open spec fn stored_row(t: TrailView) -> JsonView {
    JsonView::Object(
        seq![
            ("isin"@, JsonView::Text(t.isin)),
            ("distance"@, JsonView::Number(Seq::empty(), Some(t.distance))),
            ("percent"@, JsonView::Bool(t.percent)),
            ("high_water"@, JsonView::Number(Seq::empty(), Some(t.high_water))),
        ],
    )
}

/// The rows that trails are stored as.
pub open spec fn stored_rows(ts: Seq<TrailView>) -> JsonView {
    JsonView::Array(ts.map_values(|t: TrailView| stored_row(t)))
}

fn trail_row(t: &Trail) -> (r: Json)
    ensures
        r.view() == stored_row(trail_view(*t)),
{
    let fields: Vec<(String, Json)> = vec![
        ("isin".to_owned(), Json::Text(t.isin.clone())),
        ("distance".to_owned(), Json::Number(String::new(), Some(t.distance))),
        ("percent".to_owned(), Json::Bool(t.percent)),
        ("high_water".to_owned(), Json::Number(String::new(), Some(t.high_water))),
    ];
    proof {
        Json::lemma_object(fields);
        assert(json::member_views(fields@) =~= stored_row(trail_view(*t))->Object_0);
    }
    Json::Object(fields)
}

/// The rows to store. Their numbers are yet to be written down.
pub fn save_trails(trails: &Vec<Trail>) -> (r: Json)
    ensures
        r.view() == stored_rows(trail_views(trails@)),
{
    let mut rows: Vec<Json> = Vec::new();
    let ghost want = trail_views(trails@).map_values(|t: TrailView| stored_row(t));
    for i in 0..trails.len()
        invariant
            want == trail_views(trails@).map_values(|t: TrailView| stored_row(t)),
            json::views(rows@) == want.take(i as int),
    {
        let ghost before = json::views(rows@);
        let row = trail_row(&trails[i]);
        rows.push(row);
        assert(json::views(rows@) =~= before.push(row.view()));
        assert(want[i as int] == stored_row(trail_view(trails@[i as int])));
        assert(json::views(rows@) =~= want.take(i + 1));
    }
    proof {
        assert(want.take(trails@.len() as int) =~= want);
        Json::lemma_array(rows);
    }
    Json::Array(rows)
}

/// Whether a trail is not on an instrument.
pub open spec fn is_off(isin: Seq<char>) -> spec_fn(Trail) -> bool {
    |t: Trail| t.isin@ != isin
}

/// `trails` without those on an instrument.
pub open spec fn without(trails: Seq<Trail>, isin: Seq<char>) -> Seq<Trail> {
    trails.filter(is_off(isin))
}

/// Whether a trail has been armed: in place of any other on the instrument, from
/// the price that it has.
pub open spec fn armed(
    a: Shared,
    b: Shared,
    isin: Seq<char>,
    distance: Num,
    percent: bool,
    shown: Seq<char>,
) -> bool {
    let mid = match quotes::mid_in(a.quotes@, isin) {
        Some(m) => m,
        None => num::zero(),
    };
    &&& b.trails@.len() == without(a.trails@, isin).len() + 1
    &&& b.trails@.drop_last() == without(a.trails@, isin)
    &&& trail_view(b.trails@.last()) == (TrailView {
        isin,
        distance,
        percent,
        high_water: mid,
        min_step: num::ratio(1, 1000),
    })
    &&& b.trail_error is None
    &&& b.lines() == worker::logged(
        a.lines(),
        worker::line("trail.arm"@, 0, true, isin + " at "@ + shown),
    )
    &&& b == (Shared { trails: b.trails, trail_error: None, log: b.log, ..a })
}

impl Shared {
    fn drop_trails(&mut self, isin: &str)
        ensures
            final(self).trails@ == without(old(self).trails@, isin@),
            *final(self) == (Shared { trails: final(self).trails, ..*old(self) }),
    {
        let ghost all = self.trails@;
        let ghost f = is_off(isin@);
        let mut kept: Vec<Trail> = Vec::new();
        proof {
            crate::seqs::lemma_filter_none(all, f);
        }
        for i in 0..self.trails.len()
            invariant
                all == self.trails@,
                *self == *old(self),
                f == is_off(isin@),
                kept@ == all.take(i as int).filter(f),
        {
            proof {
                crate::seqs::lemma_filter_next(all, f, i as int);
            }
            if !same_text(self.trails[i].isin.as_str(), isin) {
                kept.push(self.trails[i].copy());
            }
        }
        assert(all.take(all.len() as int) =~= all);
        self.trails = kept;
    }

    /// Arms a trail from the price that the instrument has, which is also given as
    /// it is shown.
    pub fn arm_trail(&mut self, isin: &String, distance: Num, percent: bool, shown: &str)
        ensures
            armed(*old(self), *final(self), isin@, distance, percent, shown@),
    {
        let mid: Num = match self.mid_of(isin) {
            Some(m) => m,
            None => Num::zero(),
        };
        self.drop_trails(isin.as_str());
        self.trails.push(Trail::new(isin.as_str(), distance, percent, mid));
        assert(self.trails@.drop_last() =~= without(old(self).trails@, isin@));
        self.trail_error = None;
        let detail = linked(isin.as_str(), " at ", shown);
        self.push_log("trail.arm", 0, true, detail);
    }

    /// Ends the trails on an instrument.
    pub fn disarm_trail(&mut self, isin: &str)
        ensures
            final(self).trails@ == without(old(self).trails@, isin@),
            final(self).lines() == worker::logged(
                old(self).lines(),
                worker::line("trail.disarm"@, 0, true, isin@),
            ),
            *final(self) == (Shared {
                trails: final(self).trails,
                log: final(self).log,
                ..*old(self)
            }),
    {
        self.drop_trails(isin);
        self.push_log("trail.disarm", 0, true, isin.to_owned());
    }
}

/// Whether a trail is as one is armed, with a distance that makes sense and the
/// usual least step, and has no number that JSON cannot hold.
pub open spec fn is_storable(t: TrailView) -> bool {
    &&& trail::is_distance(t.distance, t.percent)
    &&& num::is_finite(t.distance)
    &&& num::is_finite(t.high_water)
    &&& t.min_step == num::ratio(1, 1000)
}

proof fn lemma_row_comes_back(t: TrailView)
    requires
        is_storable(t),
    ensures
        trail_in(stored_row(t)) == Some(t),
{
    let f = stored_row(t)->Object_0;
    lemma_keys();
    reveal_with_fuel(json::field, 5);
    assert(json::field(f, "isin"@) == Some(JsonView::Text(t.isin)));
    assert(f.drop_first()[0] == f[1]);
    assert(f.drop_first().drop_first()[0] == f[2]);
    assert(f.drop_first().drop_first().drop_first()[0] == f[3]);
    assert(json::field(f, "distance"@) == Some(
        JsonView::Number(Seq::empty(), Some(t.distance)),
    ));
    assert(json::field(f, "percent"@) == Some(JsonView::Bool(t.percent)));
    assert(json::field(f, "high_water"@) == Some(
        JsonView::Number(Seq::empty(), Some(t.high_water)),
    ));
    lemma_plain_path(stored_row(t), "isin"@);
    lemma_plain_path(stored_row(t), "distance"@);
    lemma_plain_path(stored_row(t), "high_water"@);
}

proof fn lemma_keys()
    ensures
        "isin"@ != "distance"@,
        "isin"@ != "percent"@,
        "isin"@ != "high_water"@,
        "distance"@ != "percent"@,
        "distance"@ != "high_water"@,
        "percent"@ != "high_water"@,
        "isin"@.len() == 4,
        "distance"@.len() == 8,
        "percent"@.len() == 7,
        "high_water"@.len() == 10,
        sc::first_slash("isin"@) == 4,
        sc::first_slash("distance"@) == 8,
        sc::first_slash("high_water"@) == 10,
{
    reveal_strlit("isin");
    reveal_strlit("distance");
    reveal_strlit("percent");
    reveal_strlit("high_water");
    sc::lemma_no_slash("isin"@);
    sc::lemma_no_slash("distance"@);
    sc::lemma_no_slash("high_water"@);
}

/// A path without slashes is the name of a member.
proof fn lemma_plain_path(v: JsonView, key: Seq<char>)
    requires
        key.len() > 0,
        sc::first_slash(key) == key.len(),
    ensures
        sc::value_at(v, key) == (match json::member(v, key) {
            Some(w) => if w == JsonView::Null {
                None
            } else {
                Some(w)
            },
            None => None,
        }),
{
    let path = sc::segments(key);
    assert(path == seq![key]);
    reveal_with_fuel(sc::walk, 3);
    assert(path.drop_first().len() == 0);
}

/// What is stored of trails is read back.
pub proof fn law_stored_trails_come_back(ts: Seq<TrailView>)
    requires
        forall|i: int| 0 <= i < ts.len() ==> is_storable(#[trigger] ts[i]),
    ensures
        trails_in(stored_rows(ts)) == ts,
    decreases ts.len(),
{
    let f = |r: JsonView| trail_in(r);
    let g = |t: TrailView| stored_row(t);
    let rows = ts.map_values(g);
    if ts.len() == 0 {
        assert(rows =~= Seq::empty());
        assert(rows.filter_map(f) =~= ts);
    } else {
        let rest = ts.drop_last();
        assert forall|i: int| 0 <= i < rest.len() implies is_storable(#[trigger] rest[i]) by {
            assert(rest[i] == ts[i]);
        }
        law_stored_trails_come_back(rest);
        assert(is_storable(ts[ts.len() - 1]));
        lemma_row_comes_back(ts.last());
        assert(rows.drop_last() =~= rest.map_values(g));
        assert(rows.last() == stored_row(ts.last()));
        assert(f(rows.last()) == Some(ts.last()));
        assert(rows.filter_map(f) =~= rest + seq![ts.last()]);
        assert(rest + seq![ts.last()] =~= ts);
    }
}

/// Arming a trail leaves one trail on the instrument.
pub proof fn law_one_trail_on_an_instrument(
    a: Shared,
    b: Shared,
    isin: Seq<char>,
    distance: Num,
    percent: bool,
    shown: Seq<char>,
    i: int,
)
    requires
        armed(a, b, isin, distance, percent, shown),
        0 <= i < b.trails@.len(),
        b.trails@[i].isin@ == isin,
    ensures
        i == b.trails@.len() - 1,
{
    if i < b.trails@.len() - 1 {
        a.trails@.lemma_filter_pred(is_off(isin), i);
        assert(b.trails@.drop_last()[i] == b.trails@[i]);
    }
}

} // verus!
