//! What it is to be read from a payload, said of the members that objects have.

use crate::json::{self, JsonView};
use crate::num::Num;
use crate::sc;
use crate::text;
use vstd::prelude::*;

verus! {

/// Whether member `i` is the first of its name, and that name is `key`.
pub open spec fn is_first(f: Seq<(Seq<char>, JsonView)>, key: Seq<char>, i: int) -> bool {
    &&& 0 <= i < f.len()
    &&& f[i].0 == key
    &&& forall|j: int| 0 <= j < i ==> (#[trigger] f[j]).0 != key
}

/// Whether `v` is an object whose member `key` is `w`.
pub open spec fn holds(v: JsonView, key: Seq<char>, w: JsonView) -> bool {
    v matches JsonView::Object(f) && exists|i: int| #[trigger] is_first(f, key, i) && f[i].1 == w
}

/// Whether the members named by `keys`, each one of the object before it, lead from
/// `v` to `w`.
pub open spec fn leads(v: JsonView, keys: Seq<Seq<char>>, w: JsonView) -> bool
    decreases keys.len(),
{
    if keys.len() == 0 {
        v == w
    } else {
        exists|x: JsonView| #[trigger] holds(v, keys[0], x) && leads(x, keys.drop_first(), w)
    }
}

/// A text with points for its commas.
pub open spec fn pointed(s: Seq<char>) -> Seq<char> {
    Seq::new(
        s.len(),
        |i: int|
            if s[i] == ',' {
                '.'
            } else {
                s[i]
            },
    )
}

/// Whether `r` is the number that a payload gives under `keys`: the number there, or
/// the one that the text there spells, with a point or a comma; none where there is
/// neither.
pub open spec fn gives_number(v: JsonView, keys: Seq<Seq<char>>, r: Option<Num>) -> bool {
    &&& forall|t: Seq<char>, n: Option<Num>| #[trigger]
        leads(v, keys, JsonView::Number(t, n)) ==> r == n
    &&& forall|t: Seq<char>| #[trigger]
        leads(v, keys, JsonView::Text(t)) ==> match sc::parsed_number(text::trimmed(pointed(t))) {
            Some(bits) => r == Some(Num { bits }),
            None => r is None,
        }
    &&& r is Some ==> exists|w: JsonView| #[trigger]
        leads(v, keys, w) && (w is Number || w is Text)
}

/// Whether `r` is the number that a payload gives under `keys`, or zero where it
/// gives none.
pub open spec fn gives_amount(v: JsonView, keys: Seq<Seq<char>>, r: Num) -> bool {
    gives_number(v, keys, Some(r)) || (gives_number(v, keys, None) && r == Num { bits: 0 })
}

/// Whether `r` are the words that a payload gives under `keys`: the text there, or
/// how the number or the truth there is written.
pub open spec fn gives_words(v: JsonView, keys: Seq<Seq<char>>, r: Option<Seq<char>>) -> bool {
    &&& forall|t: Seq<char>| #[trigger] leads(v, keys, JsonView::Text(t)) ==> r == Some(t)
    &&& forall|t: Seq<char>, n: Option<Num>| #[trigger]
        leads(v, keys, JsonView::Number(t, n)) ==> r == Some(t)
    &&& leads(v, keys, JsonView::Bool(true)) ==> r == Some("true"@)
    &&& leads(v, keys, JsonView::Bool(false)) ==> r == Some("false"@)
    &&& r is Some ==> exists|w: JsonView| #[trigger]
        leads(v, keys, w) && (w is Text || w is Number || w is Bool)
}

/// Whether `r` are the words that a payload gives under `keys`, or nothing where it
/// gives none.
pub open spec fn gives_text(v: JsonView, keys: Seq<Seq<char>>, r: Seq<char>) -> bool {
    gives_words(v, keys, Some(r)) || (gives_words(v, keys, None) && r.len() == 0)
}

/// Whether `r` are the elements of the array that a payload has under `keys`; none
/// where there is no array.
pub open spec fn gives_list(v: JsonView, keys: Seq<Seq<char>>, r: Seq<JsonView>) -> bool {
    &&& forall|a: Seq<JsonView>| #[trigger] leads(v, keys, JsonView::Array(a)) ==> r == a
    &&& r.len() > 0 ==> leads(v, keys, JsonView::Array(r))
}

/// Whether `r` is what one path gives, or what another does where the first gives
/// nothing.
pub open spec fn gives_either_number(
    v: JsonView,
    keys: Seq<Seq<char>>,
    other: Seq<Seq<char>>,
    r: Option<Num>,
) -> bool {
    ||| r is Some && gives_number(v, keys, r)
    ||| gives_number(v, keys, None) && gives_number(v, other, r)
}

/// Whether `r` is what one path gives in words, or what another does where the
/// first gives nothing.
pub open spec fn gives_either_text(
    v: JsonView,
    keys: Seq<Seq<char>>,
    other: Seq<Seq<char>>,
    r: Seq<char>,
) -> bool {
    ||| gives_words(v, keys, Some(r))
    ||| gives_words(v, keys, None) && gives_text(v, other, r)
}

/// A payload gives one number at most under a name.
pub proof fn lemma_one_number(
    v: JsonView,
    keys: Seq<Seq<char>>,
    r: Option<Num>,
    other: Option<Num>,
)
    requires
        gives_number(v, keys, r),
        gives_number(v, keys, other),
    ensures
        r == other,
{
    if r is Some || other is Some {
        let w = choose|w: JsonView| #[trigger] leads(v, keys, w) && (w is Number || w is Text);
        match w {
            JsonView::Number(t, n) => {
                assert(leads(v, keys, JsonView::Number(t, n)));
            },
            JsonView::Text(t) => {
                assert(leads(v, keys, JsonView::Text(t)));
            },
            _ => {},
        }
    }
}

/// A payload gives one text at most under a name.
pub proof fn lemma_one_text(
    v: JsonView,
    keys: Seq<Seq<char>>,
    r: Option<Seq<char>>,
    other: Option<Seq<char>>,
)
    requires
        gives_words(v, keys, r),
        gives_words(v, keys, other),
    ensures
        r == other,
{
    if r is Some || other is Some {
        let w = choose|w: JsonView| #[trigger]
            leads(v, keys, w) && (w is Text || w is Number || w is Bool);
        match w {
            JsonView::Number(t, n) => {
                assert(leads(v, keys, JsonView::Number(t, n)));
            },
            JsonView::Text(t) => {
                assert(leads(v, keys, JsonView::Text(t)));
            },
            JsonView::Bool(b) => {
                assert(leads(v, keys, JsonView::Bool(b)));
            },
            _ => {},
        }
    }
}

/// A payload gives one list at most under a name.
pub proof fn lemma_one_list(
    v: JsonView,
    keys: Seq<Seq<char>>,
    r: Seq<JsonView>,
    other: Seq<JsonView>,
)
    requires
        gives_list(v, keys, r),
        gives_list(v, keys, other),
    ensures
        r == other,
{
    if r.len() > 0 {
        assert(leads(v, keys, JsonView::Array(r)));
    } else if other.len() > 0 {
        assert(leads(v, keys, JsonView::Array(other)));
    } else {
        assert(r =~= other);
    }
}

proof fn lemma_field(f: Seq<(Seq<char>, JsonView)>, key: Seq<char>)
    ensures
        forall|i: int| #[trigger] is_first(f, key, i) ==> json::field(f, key) == Some(f[i].1),
        json::field(f, key) is Some ==> exists|i: int| #[trigger]
            is_first(f, key, i) && json::field(f, key) == Some(f[i].1),
    decreases f.len(),
{
    if f.len() > 0 {
        let rest = f.drop_first();
        lemma_field(rest, key);
        assert(forall|j: int| 0 <= j < rest.len() ==> #[trigger] rest[j] == f[j + 1]);
        if f[0].0 == key {
            assert(is_first(f, key, 0));
            assert forall|i: int| #[trigger] is_first(f, key, i) implies json::field(f, key)
                == Some(f[i].1) by {
                if i > 0 {
                    assert(f[0].0 != key);
                }
            }
        } else {
            assert forall|i: int| #[trigger] is_first(f, key, i) implies json::field(f, key)
                == Some(f[i].1) by {
                assert forall|j: int| 0 <= j < i - 1 implies (#[trigger] rest[j]).0 != key by {
                    assert(f[j + 1].0 != key);
                }
                assert(is_first(rest, key, i - 1));
            }
            if json::field(rest, key) is Some {
                let i = choose|i: int| #[trigger]
                    is_first(rest, key, i) && json::field(rest, key) == Some(rest[i].1);
                assert forall|j: int| 0 <= j < i + 1 implies (#[trigger] f[j]).0 != key by {
                    if j > 0 {
                        assert(rest[j - 1].0 != key);
                    }
                }
                assert(is_first(f, key, i + 1));
            }
        }
    }
}

/// The member of an object is the first of its name.
pub proof fn law_the_first_of_a_name_counts(v: JsonView, key: Seq<char>)
    ensures
        forall|w: JsonView| #[trigger] holds(v, key, w) <==> json::member(v, key) == Some(w),
{
    if let JsonView::Object(f) = v {
        lemma_field(f, key);
        assert forall|w: JsonView| #[trigger] holds(v, key, w) <==> json::member(v, key) == Some(
            w,
        ) by {
            if holds(v, key, w) {
                let i = choose|i: int| #[trigger] is_first(f, key, i) && f[i].1 == w;
            }
        }
    }
}

/// A walk through a payload ends where the members on the way lead.
pub proof fn law_a_walk_follows_the_members(v: JsonView, keys: Seq<Seq<char>>)
    ensures
        forall|w: JsonView| #[trigger] leads(v, keys, w) <==> sc::walk(v, keys) == Some(w),
    decreases keys.len(),
{
    if keys.len() > 0 {
        law_the_first_of_a_name_counts(v, keys[0]);
        match json::member(v, keys[0]) {
            Some(x) => {
                law_a_walk_follows_the_members(x, keys.drop_first());
                assert(holds(v, keys[0], x));
                assert forall|w: JsonView| #[trigger] leads(v, keys, w) <==> sc::walk(v, keys)
                    == Some(w) by {
                    if leads(v, keys, w) {
                        let y = choose|y: JsonView| #[trigger]
                            holds(v, keys[0], y) && leads(y, keys.drop_first(), w);
                        assert(y == x);
                    }
                    if sc::walk(v, keys) == Some(w) {
                        assert(leads(x, keys.drop_first(), w));
                    }
                }
            },
            None => {},
        }
    }
}

/// What a path gives is what its members lead to.
pub proof fn lemma_given(v: JsonView, path: Seq<char>, keys: Seq<Seq<char>>)
    requires
        sc::segments(path) == keys,
    ensures
        gives_number(v, keys, sc::number_at(v, path)),
        gives_amount(v, keys, sc::number_or_zero(v, path)),
        gives_words(v, keys, sc::words_at(v, path)),
        gives_text(v, keys, sc::words_or_empty(v, path)),
        gives_list(v, keys, sc::list_at(v, path)),
        sc::truth_at(v, path) == leads(v, keys, JsonView::Bool(true)),
{
    law_a_walk_follows_the_members(v, keys);
    let found = sc::walk(v, keys);
    if let Some(w) = found {
        assert(leads(v, keys, w));
        if let JsonView::Text(t) = w {
            assert(sc::with_points(t) =~= pointed(t));
        }
        if let JsonView::Bool(b) = w {
            assert(b ==> leads(v, keys, JsonView::Bool(true)));
            assert(!b ==> leads(v, keys, JsonView::Bool(false)));
        }
    }
    let n = sc::number_at(v, path);
    assert(gives_number(v, keys, n)) by {
        assert forall|t: Seq<char>| #[trigger]
            leads(v, keys, JsonView::Text(t)) implies match sc::parsed_number(
            text::trimmed(pointed(t)),
        ) {
            Some(bits) => n == Some(Num { bits }),
            None => n is None,
        } by {
            assert(sc::with_points(t) =~= pointed(t));
        }
    }
    assert(gives_words(v, keys, sc::words_at(v, path)));
    assert(gives_list(v, keys, sc::list_at(v, path)));
    let s = sc::words_at(v, path);
    match s {
        Some(x) => {
            assert(sc::words_or_empty(v, path) == x);
        },
        None => {
            assert(sc::words_or_empty(v, path).len() == 0);
        },
    }
}

/// A path of one name.
pub proof fn lemma_one_name(key: Seq<char>)
    requires
        key.len() > 0,
        forall|i: int| 0 <= i < key.len() ==> #[trigger] key[i] != '/',
    ensures
        sc::segments(key) == seq![key],
{
    sc::lemma_no_slash(key);
}

/// A path that begins with a name and goes on behind a slash.
pub proof fn lemma_longer_path(
    path: Seq<char>,
    key: Seq<char>,
    rest: Seq<char>,
    keys: Seq<Seq<char>>,
)
    requires
        key.len() > 0,
        forall|i: int| 0 <= i < key.len() ==> #[trigger] key[i] != '/',
        path == key + seq!['/'] + rest,
        sc::segments(rest) == keys,
    ensures
        sc::segments(path) == seq![key] + keys,
{
    lemma_slash_after(key, rest);
    let i = key.len() as int;
    assert(sc::first_slash(path) == i);
    assert(path.take(i) =~= key);
    assert(path.skip(i + 1) =~= rest);
}

proof fn lemma_slash_after(key: Seq<char>, rest: Seq<char>)
    requires
        forall|i: int| 0 <= i < key.len() ==> #[trigger] key[i] != '/',
    ensures
        sc::first_slash(key + seq!['/'] + rest) == key.len(),
    decreases key.len(),
{
    let path = key + seq!['/'] + rest;
    if key.len() > 0 {
        let less = key.drop_first();
        assert forall|i: int| 0 <= i < less.len() implies #[trigger] less[i] != '/' by {
            assert(less[i] == key[i + 1]);
        }
        lemma_slash_after(less, rest);
        assert(path.drop_first() =~= less + seq!['/'] + rest);
        assert(path[0] == key[0]);
    } else {
        assert(path[0] == '/');
    }
}

/// A number that is written out with a comma is read as the one with a point.
pub proof fn law_a_comma_is_a_point(v: JsonView, w: JsonView, path: Seq<char>, s: Seq<char>)
    requires
        leads(v, sc::segments(path), JsonView::Text(s)),
        leads(w, sc::segments(path), JsonView::Text(pointed(s))),
    ensures
        sc::number_at(v, path) == sc::number_at(w, path),
{
    lemma_given(v, path, sc::segments(path));
    lemma_given(w, path, sc::segments(path));
    assert(pointed(pointed(s)) =~= pointed(s));
}

/// Slashes that nothing stands between do not count: a path leads the same way with one
/// in front of it.
pub proof fn law_a_leading_slash_does_not_count(path: Seq<char>)
    ensures
        sc::segments(seq!['/'] + path) == sc::segments(path),
        sc::segments(Seq::empty()).len() == 0,
{
    let p = seq!['/'] + path;
    assert(p[0] == '/');
    assert(sc::first_slash(p) == 0);
    assert(p.take(0).len() == 0);
    assert(p.skip(1) =~= path);
    assert(sc::part(p.take(0)) + sc::segments(path) =~= sc::segments(path));
}

} // verus!
