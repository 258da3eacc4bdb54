//! Local lists of instruments.
//!
//! The broker owns balances, holdings, orders and a watchlist of its own. What it
//! has no notion of is kept here, so that refreshing the account cannot discard
//! local work, and local work cannot be taken for the account.

use crate::laws::lists::lemma_kept;
use crate::seqs;
use crate::text::{self, copy_texts, listed, same_text, to_uppercase, trim};
use vstd::prelude::*;
use vstd::string::*;

verus! {

/// Which list is shown. Two of them are derived: the broker's from the account,
/// and the positions from what is held.
#[derive(Debug, Clone, Copy, PartialEq, Eq, Structural)]
pub enum ListId {
    Broker,
    Positions,
    Local(usize),
}

#[derive(Debug, Clone)]
pub struct WatchList {
    pub name: String,
    /// In the order that the user ranks them, each of them once.
    pub isins: Vec<String>,
}

/// How an instrument is written in a list.
pub open spec fn normal(isin: Seq<char>) -> Seq<char> {
    text::raised(text::trimmed(isin))
}

/// `s` with the entry at `from` taken out and put in at `to`.
pub open spec fn moved<A>(s: Seq<A>, from: int, to: int) -> Seq<A> {
    s.remove(from).insert(to, s[from])
}

/// `n` held to the range from `lo` to `hi`.
pub open spec fn clamped(n: int, lo: int, hi: int) -> int {
    if n < lo {
        lo
    } else if n > hi {
        hi
    } else {
        n
    }
}

impl WatchList {
    pub open spec fn entries(self) -> Seq<Seq<char>> {
        text::texts(self.isins@)
    }

    /// Whether no instrument is listed twice.
    pub open spec fn deduplicated(self) -> bool {
        self.entries().no_duplicates()
    }

    pub fn new(name: &str) -> (r: WatchList)
        ensures
            r.name@ == name@,
            r.entries() == Seq::<Seq<char>>::empty(),
            r.deduplicated(),
    {
        let r = WatchList { name: name.to_owned(), isins: Vec::new() };
        assert(r.entries() =~= Seq::empty());
        r
    }

    /// Lists an instrument, unless it is blank or listed already. Says whether it
    /// was.
    pub fn add(&mut self, isin: &str) -> (r: bool)
        ensures
            r == (normal(isin@).len() > 0 && !old(self).entries().contains(normal(isin@))),
            final(self).name == old(self).name,
            final(self).entries() == if r {
                old(self).entries().push(normal(isin@))
            } else {
                old(self).entries()
            },
            old(self).deduplicated() ==> final(self).deduplicated(),
            old(self).entries().is_prefix_of(final(self).entries()),
            normal(isin@).len() > 0 ==> final(self).entries().contains(normal(isin@)),
            forall|e: Seq<char>| #[trigger]
                final(self).entries().contains(e) ==> old(self).entries().contains(e) || e == normal(
                    isin@,
                ),
            normal(isin@).len() == 0 ==> final(self).entries() == old(self).entries(),
    {
        let isin = to_uppercase(trim(isin));
        if isin.as_str().is_empty() || listed(&self.isins, isin.as_str()) {
            return false;
        }
        self.isins.push(isin);
        assert(self.entries() =~= old(self).entries().push(isin@));
        assert(self.entries()[self.entries().len() - 1] == isin@);
        true
    }

    /// Takes an instrument off the list.
    pub fn remove(&mut self, isin: &str)
        ensures
            final(self).name == old(self).name,
            final(self).entries() == old(self).entries().filter(|e: Seq<char>| e != isin@),
            old(self).deduplicated() ==> final(self).deduplicated(),
            !final(self).entries().contains(isin@),
            forall|e: Seq<char>|
                e != isin@ ==> (#[trigger] final(self).entries().contains(e) <==> old(
                    self,
                ).entries().contains(e)),
    {
        let mut kept: Vec<String> = Vec::new();
        let ghost all = self.entries();
        let ghost f = |e: Seq<char>| e != isin@;
        proof {
            seqs::lemma_filter_none(all, f);
            assert(text::texts(kept@) =~= Seq::empty());
        }
        for i in 0..self.isins.len()
            invariant
                all == self.entries(),
                f == (|e: Seq<char>| e != isin@),
                text::texts(kept@) == all.take(i as int).filter(f),
        {
            proof {
                assert(all[i as int] == self.isins@[i as int]@);
                seqs::lemma_filter_next(all, f, i as int);
            }
            if !same_text(self.isins[i].as_str(), isin) {
                let ghost before = text::texts(kept@);
                kept.push(self.isins[i].clone());
                assert(text::texts(kept@) =~= before.push(all[i as int]));
            }
        }
        proof {
            assert(all.take(all.len() as int) =~= all);
            if all.no_duplicates() {
                seqs::lemma_filter_distinct(all, f);
            }
            lemma_kept(all, f);
        }
        self.isins = kept;
    }

    /// Moves an entry by so many places, and to the end where it would go past
    /// one. An instrument that is not listed moves nothing.
    pub fn move_by(&mut self, isin: &str, delta: isize)
        ensures
            final(self).name == old(self).name,
            final(self).isins@ == if old(self).entries().contains(isin@) {
                let from = first_place(old(self).entries(), isin@);
                moved(
                    old(self).isins@,
                    from,
                    clamped(from + delta, 0, old(self).isins@.len() - 1),
                )
            } else {
                old(self).isins@
            },
            old(self).deduplicated() ==> final(self).deduplicated(),
            !old(self).entries().contains(isin@) ==> final(self).entries() == old(self).entries(),
            forall|i: int|
                0 <= i < old(self).entries().len() && #[trigger] old(self).entries()[i] == isin@ && (
                forall|k: int| 0 <= k < i ==> #[trigger] old(self).entries()[k] != isin@) ==> {
                    let n = old(self).entries().len();
                    let to = if i + delta < 0 {
                        0
                    } else if i + delta >= n {
                        n - 1
                    } else {
                        i + delta
                    };
                    &&& final(self).entries().len() == n
                    &&& final(self).entries()[to] == isin@
                    &&& final(self).entries().remove(to) == old(self).entries().remove(i)
                },
    {
        let ghost all = self.entries();
        let n: usize = self.isins.len();
        let mut from: usize = 0;
        while from < n && !same_text(self.isins[from].as_str(), isin)
            invariant
                from <= n,
                n == self.isins@.len(),
                all == self.entries(),
                forall|k: int| 0 <= k < from ==> #[trigger] all[k] != isin@,
            decreases n - from,
        {
            from = from + 1;
        }
        if from == n {
            assert(!all.contains(isin@));
            return;
        }
        let target: i128 = from as i128 + delta as i128;
        let last: i128 = n as i128 - 1;
        let to: usize = if target < 0 {
            0
        } else if target > last {
            last as usize
        } else {
            target as usize
        };
        proof {
            assert(all[from as int] == isin@);
            lemma_first_place(all, isin@, from as int);
            if all.no_duplicates() {
                seqs::lemma_moved_distinct(all, from as int, to as int);
            }
        }
        let item = self.isins.remove(from);
        self.isins.insert(to, item);
        assert(self.entries() =~= moved(all, from as int, to as int));
        proof {
            law_moving_keeps_the_ranking(all, from as int, to as int);
            assert forall|i: int|
                0 <= i < all.len() && #[trigger] all[i] == isin@ && (forall|k: int|
                    0 <= k < i ==> #[trigger] all[k] != isin@) implies i == from by {
                if i > from {
                    assert(all[from as int] != isin@);
                }
            }
        }
    }
}

/// The place of the first entry that is `e`.
pub open spec fn first_place(s: Seq<Seq<char>>, e: Seq<char>) -> int
    decreases s.len(),
{
    if s.len() == 0 || s[0] == e {
        0
    } else {
        1 + first_place(s.drop_first(), e)
    }
}

pub proof fn lemma_first_place(s: Seq<Seq<char>>, e: Seq<char>, i: int)
    requires
        0 <= i < s.len(),
        s[i] == e,
        forall|k: int| 0 <= k < i ==> #[trigger] s[k] != e,
    ensures
        first_place(s, e) == i,
    decreases i,
{
    if i > 0 {
        let rest = s.drop_first();
        assert(s[0] != e);
        assert forall|k: int| 0 <= k < i - 1 implies #[trigger] rest[k] != e by {
            assert(s[k + 1] != e);
        }
        lemma_first_place(rest, e, i - 1);
    }
}

/// Moving an entry keeps every entry, and the order of the others.
pub proof fn law_moving_keeps_the_ranking(s: Seq<Seq<char>>, from: int, to: int)
    requires
        0 <= from < s.len(),
        0 <= to < s.len(),
    ensures
        moved(s, from, to).to_multiset() == s.to_multiset(),
        moved(s, from, to)[to] == s[from],
        moved(s, from, to).remove(to) == s.remove(from),
{
    broadcast use vstd::seq_lib::group_to_multiset_ensures;

    let m = moved(s, from, to);
    assert(m.remove(to) =~= s.remove(from));
    assert(m.to_multiset().remove(m[to]) =~= s.to_multiset().remove(s[from]));
    assert(m.to_multiset() =~= m.to_multiset().remove(m[to]).insert(m[to]));
    assert(s.to_multiset() =~= s.to_multiset().remove(s[from]).insert(s[from]));
}

#[derive(Debug, Clone)]
pub struct Workspace {
    pub lists: Vec<WatchList>,
    pub active: ListId,
}

impl Default for Workspace {
    fn default() -> (r: Workspace)
        ensures
            r.lists@ == Seq::<WatchList>::empty(),
            r.active == ListId::Broker,
            r.sound(),
    {
        Workspace { lists: Vec::new(), active: ListId::Broker }
    }
}

/// The list that is shown where one of `n` lists was asked for.
pub open spec fn repaired(active: ListId, n: int) -> ListId {
    match active {
        ListId::Local(i) => if i >= n {
            ListId::Broker
        } else {
            active
        },
        _ => active,
    }
}

/// The list that is shown once the list at `index` is gone.
pub open spec fn after_delete(active: ListId, index: int) -> ListId {
    match active {
        ListId::Local(a) => if a == index {
            ListId::Broker
        } else if a > index {
            ListId::Local((a - 1) as usize)
        } else {
            active
        },
        _ => active,
    }
}

/// `v` with those of `extra` behind it that it does not hold yet.
pub open spec fn with_all(v: Seq<Seq<char>>, extra: Seq<Seq<char>>) -> Seq<Seq<char>>
    decreases extra.len(),
{
    if extra.len() == 0 {
        v
    } else {
        let w = with_all(v, extra.drop_last());
        if w.contains(extra.last()) {
            w
        } else {
            w.push(extra.last())
        }
    }
}

impl Workspace {
    /// Whether the list that is shown exists.
    pub open spec fn sound(self) -> bool {
        self.active matches ListId::Local(i) ==> i < self.lists@.len()
    }

    /// The rows of the list that is shown, given the broker's list and what is
    /// held.
    pub open spec fn shown(
        self,
        broker: Seq<Seq<char>>,
        held: Seq<Seq<char>>,
    ) -> Seq<Seq<char>> {
        match self.active {
            ListId::Broker => with_all(broker, held),
            ListId::Positions => held,
            ListId::Local(i) => if i < self.lists@.len() {
                self.lists@[i as int].entries()
            } else {
                Seq::empty()
            },
        }
    }

    /// A list that is no longer there would show nothing, with no way back.
    pub fn repair(&mut self)
        ensures
            final(self).lists == old(self).lists,
            final(self).active == repaired(old(self).active, old(self).lists@.len() as int),
            final(self).sound(),
            old(self).sound() ==> *final(self) == *old(self),
    {
        match self.active {
            ListId::Local(i) => {
                if i >= self.lists.len() {
                    self.active = ListId::Broker;
                }
            },
            _ => {},
        }
    }

    pub fn create(&mut self, name: &str) -> (r: ListId)
        ensures
            r == ListId::Local(old(self).lists@.len() as usize),
            final(self).active == old(self).active,
            final(self).lists@.len() == old(self).lists@.len() + 1,
            final(self).lists@.drop_last() == old(self).lists@,
            final(self).lists@.last().name@ == name@,
            final(self).lists@.last().entries() == Seq::<Seq<char>>::empty(),
            old(self).sound() ==> final(self).sound(),
    {
        self.lists.push(WatchList::new(name));
        assert(self.lists@.drop_last() =~= old(self).lists@);
        ListId::Local(self.lists.len() - 1)
    }

    /// Deletes a list. Those behind it move up by one, so the selection is
    /// rewritten to stay on the list that it was on.
    pub fn delete(&mut self, index: usize)
        ensures
            index >= old(self).lists@.len() ==> *final(self) == *old(self),
            index < old(self).lists@.len() ==> {
                &&& final(self).lists@ == old(self).lists@.remove(index as int)
                &&& final(self).active == repaired(
                    after_delete(old(self).active, index as int),
                    final(self).lists@.len() as int,
                )
                &&& final(self).sound()
            },
            old(self).sound() ==> final(self).sound(),
    {
        if index >= self.lists.len() {
            return;
        }
        let _ = self.lists.remove(index);
        self.active = match self.active {
            ListId::Local(a) => if a == index {
                ListId::Broker
            } else if a > index {
                ListId::Local(a - 1)
            } else {
                ListId::Local(a)
            },
            other => other,
        };
        self.repair();
    }

    pub fn local(&self, id: ListId) -> (r: Option<&WatchList>)
        ensures
            r == (match id {
                ListId::Local(i) => if i < self.lists@.len() {
                    Some(&self.lists@[i as int])
                } else {
                    None
                },
                _ => None,
            }),
    {
        match id {
            ListId::Local(i) => if i < self.lists.len() {
                Some(&self.lists[i])
            } else {
                None
            },
            _ => None,
        }
    }

    pub fn local_mut(&mut self, id: ListId) -> (r: Option<&mut WatchList>)
        ensures
            (match (id, r) {
                (ListId::Local(i), Some(w)) => {
                    &&& i < old(self).lists@.len()
                    &&& *w == old(self).lists@[i as int]
                    &&& final(self).lists@ == old(self).lists@.update(i as int, *final(w))
                    &&& final(self).active == old(self).active
                },
                (ListId::Local(i), None) => i >= old(self).lists@.len() && *final(self) == *old(
                    self,
                ),
                (_, r) => r is None && *final(self) == *old(self),
            }),
    {
        match id {
            ListId::Local(i) => {
                if i < self.lists.len() {
                    Some(&mut self.lists[i])
                } else {
                    None
                }
            },
            _ => None,
        }
    }

    pub fn name_of(&self, id: ListId) -> (r: String)
        ensures
            r@ == (match id {
                ListId::Broker => "Scalable account"@,
                ListId::Positions => "Positions"@,
                ListId::Local(i) => if i < self.lists@.len() {
                    self.lists@[i as int].name@
                } else {
                    "(missing)"@
                },
            }),
    {
        match id {
            ListId::Broker => "Scalable account".to_owned(),
            ListId::Positions => "Positions".to_owned(),
            ListId::Local(i) => if i < self.lists.len() {
                self.lists[i].name.clone()
            } else {
                "(missing)".to_owned()
            },
        }
    }

    /// The rows of the list that is shown. The broker's list cannot hold a
    /// position, so the positions are shown behind it.
    pub fn rows(&self, broker: &Vec<String>, held: &Vec<String>) -> (r: Vec<String>)
        ensures
            text::texts(r@) == self.shown(text::texts(broker@), text::texts(held@)),
    {
        match self.active {
            ListId::Broker => add_all(copy_texts(broker), held),
            ListId::Positions => copy_texts(held),
            ListId::Local(i) => if i < self.lists.len() {
                copy_texts(&self.lists[i].isins)
            } else {
                let none: Vec<String> = Vec::new();
                assert(text::texts(none@) =~= Seq::empty());
                none
            },
        }
    }

    /// What to poll: what is shown, and what is held, which needs a price
    /// whichever list is shown.
    pub fn poll_set(&self, broker: &Vec<String>, held: &Vec<String>) -> (r: Vec<String>)
        ensures
            text::texts(r@) == with_all(
                self.shown(text::texts(broker@), text::texts(held@)),
                text::texts(held@),
            ),
    {
        add_all(self.rows(broker, held), held)
    }
}

/// Puts those of `extra` behind a list that it does not hold yet.
pub(crate) fn add_all(list: Vec<String>, extra: &Vec<String>) -> (r: Vec<String>)
    ensures
        text::texts(r@) == with_all(text::texts(list@), text::texts(extra@)),
{
    let mut v = list;
    let ghost all = text::texts(extra@);
    let ghost start = text::texts(list@);
    assert(all.take(0) =~= Seq::empty());
    for i in 0..extra.len()
        invariant
            all == text::texts(extra@),
            text::texts(v@) == with_all(start, all.take(i as int)),
    {
        assert(all.take(i + 1).drop_last() =~= all.take(i as int));
        assert(all.take(i + 1).last() == extra@[i as int]@);
        if !listed(&v, extra[i].as_str()) {
            let ghost before = text::texts(v@);
            v.push(extra[i].clone());
            assert(text::texts(v@) =~= before.push(extra@[i as int]@));
        }
    }
    assert(all.take(extra@.len() as int) =~= all);
    v
}

/// Adding to a list keeps what is on it, covers all that is added, and lists
/// nothing twice that was not.
pub proof fn law_adding_covers_everything(v: Seq<Seq<char>>, extra: Seq<Seq<char>>)
    ensures
        v.is_prefix_of(with_all(v, extra)),
        forall|e: Seq<char>| v.contains(e) ==> #[trigger] with_all(v, extra).contains(e),
        forall|e: Seq<char>| extra.contains(e) ==> #[trigger] with_all(v, extra).contains(e),
        forall|e: Seq<char>| #[trigger]
            with_all(v, extra).contains(e) ==> v.contains(e) || extra.contains(e),
        v.no_duplicates() ==> with_all(v, extra).no_duplicates(),
    decreases extra.len(),
{
    if extra.len() > 0 {
        let rest = extra.drop_last();
        let x = extra.last();
        law_adding_covers_everything(v, rest);
        let w = with_all(v, rest);
        let r = with_all(v, extra);
        assert forall|e: Seq<char>| w.contains(e) implies r.contains(e) by {
            let i = choose|i: int| 0 <= i < w.len() && w[i] == e;
            assert(r[i] == e);
        }
        assert(r.contains(x)) by {
            if !w.contains(x) {
                assert(r[r.len() - 1] == x);
            }
        }
        assert forall|e: Seq<char>| extra.contains(e) implies r.contains(e) by {
            let i = choose|i: int| 0 <= i < extra.len() && extra[i] == e;
            if i < rest.len() {
                assert(rest[i] == e);
                assert(rest.contains(e));
                assert(w.contains(e));
            }
        }
        assert forall|e: Seq<char>| #[trigger] r.contains(e) implies v.contains(e)
            || extra.contains(e) by {
            let i = choose|i: int| 0 <= i < r.len() && r[i] == e;
            if i < w.len() {
                assert(w[i] == e);
                assert(w.contains(e));
                if rest.contains(e) {
                    let k = choose|k: int| 0 <= k < rest.len() && rest[k] == e;
                    assert(extra[k] == e);
                }
            } else {
                assert(e == x);
                assert(extra[extra.len() - 1] == e);
            }
        }
    }
}

/// Everything that is held is polled, whichever list is shown, and so is every
/// row of it; where no row is shown twice, nothing is polled twice.
pub proof fn law_polling_covers_rows_and_holdings(
    w: Workspace,
    broker: Seq<Seq<char>>,
    held: Seq<Seq<char>>,
)
    ensures
        forall|e: Seq<char>|
            held.contains(e) ==> #[trigger] with_all(w.shown(broker, held), held).contains(e),
        w.shown(broker, held).is_prefix_of(with_all(w.shown(broker, held), held)),
        w.shown(broker, held).no_duplicates() ==> with_all(
            w.shown(broker, held),
            held,
        ).no_duplicates(),
{
    law_adding_covers_everything(w.shown(broker, held), held);
}

/// Deleting another list leaves the same list shown.
pub proof fn law_deleting_keeps_the_selection(lists: Seq<WatchList>, active: usize, index: int)
    requires
        0 <= index < lists.len(),
        active < lists.len(),
        active != index,
    ensures
        ({
            let now = repaired(
                after_delete(ListId::Local(active), index),
                lists.remove(index).len() as int,
            );
            now matches ListId::Local(i) && lists.remove(index)[i as int] == lists[active as int]
        }),
{
}

} // verus!
