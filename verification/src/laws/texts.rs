//! What is done to texts, by their characters.

use crate::model::pending;
use crate::screen;
use crate::text;
use crate::workspace;
use vstd::prelude::*;

verus! {

/// Whether all of a text is white space.
pub open spec fn is_blank(s: Seq<char>) -> bool {
    forall|i: int| 0 <= i < s.len() ==> text::white_space(#[trigger] s[i])
}

/// Whether a text has something in it, and no white space at its ends.
pub open spec fn is_tight(s: Seq<char>) -> bool {
    s.len() > 0 && !text::white_space(s[0]) && !text::white_space(s.last())
}

proof fn lemma_without_lead(a: Seq<char>, s: Seq<char>)
    requires
        is_blank(a),
        s.len() > 0 ==> !text::white_space(s[0]),
    ensures
        text::without_lead(a + s) == s,
    decreases a.len(),
{
    if a.len() > 0 {
        let rest = a.drop_first();
        assert(text::white_space(a[0]));
        assert forall|i: int| 0 <= i < rest.len() implies text::white_space(#[trigger] rest[i]) by {
            assert(rest[i] == a[i + 1]);
        }
        lemma_without_lead(rest, s);
        assert((a + s).drop_first() =~= rest + s);
        assert((a + s)[0] == a[0]);
    } else {
        assert(a + s =~= s);
    }
}

proof fn lemma_without_tail(s: Seq<char>, b: Seq<char>)
    requires
        is_blank(b),
        s.len() > 0 ==> !text::white_space(s.last()),
    ensures
        text::without_tail(s + b) == s,
    decreases b.len(),
{
    if b.len() > 0 {
        let rest = b.drop_last();
        assert(text::white_space(b[b.len() - 1]));
        assert forall|i: int| 0 <= i < rest.len() implies text::white_space(#[trigger] rest[i]) by {
            assert(rest[i] == b[i]);
        }
        lemma_without_tail(s, rest);
        assert((s + b).drop_last() =~= s + rest);
        assert((s + b).last() == b.last());
    } else {
        assert(s + b =~= s);
    }
}

/// Trimming takes the white space off both ends of a text, and nothing else; of a
/// blank text nothing is left.
pub proof fn law_trimming_takes_white_space_off(a: Seq<char>, s: Seq<char>, b: Seq<char>)
    requires
        is_blank(a),
        is_blank(b),
    ensures
        is_tight(s) ==> text::trimmed(a + s + b) == s,
        text::trimmed(a) == Seq::<char>::empty(),
        text::white_space(' ') && text::white_space('\t') && text::white_space('\n')
            && text::white_space('\r'),
        !text::white_space('a') && !text::white_space('Z') && !text::white_space('0')
            && !text::white_space('-'),
{
    if is_tight(s) {
        assert(a + s + b =~= a + (s + b));
        assert((s + b)[0] == s[0]);
        lemma_without_lead(a, s + b);
        lemma_without_tail(s, b);
    }
    lemma_without_lead(a, Seq::empty());
    assert(a + Seq::<char>::empty() =~= a);
}

/// Every text is white space, what trimming leaves of it, and white space again.
pub proof fn law_trimming_leaves_no_white_space(s: Seq<char>) -> (ends: (Seq<char>, Seq<char>))
    ensures
        s == ends.0 + text::trimmed(s) + ends.1,
        is_blank(ends.0),
        is_blank(ends.1),
        text::trimmed(s).len() > 0 ==> is_tight(text::trimmed(s)),
{
    let a = lemma_lead_part(s);
    let m = text::without_lead(s);
    let b = lemma_tail_part(m);
    assert(s =~= a + text::trimmed(s) + b);
    let r = text::trimmed(s);
    if r.len() > 0 {
        assert(m == r + b);
        assert(m[0] == r[0]);
    }
    (a, b)
}

proof fn lemma_lead_part(s: Seq<char>) -> (a: Seq<char>)
    ensures
        s == a + text::without_lead(s),
        is_blank(a),
        text::without_lead(s).len() > 0 ==> !text::white_space(text::without_lead(s)[0]),
    decreases s.len(),
{
    if s.len() > 0 && text::white_space(s[0]) {
        let rest = lemma_lead_part(s.drop_first());
        let a = seq![s[0]] + rest;
        let w = text::without_lead(s.drop_first());
        assert(s =~= seq![s[0]] + s.drop_first());
        assert(a + w =~= seq![s[0]] + (rest + w));
        a
    } else {
        assert(s =~= Seq::<char>::empty() + s);
        Seq::empty()
    }
}

proof fn lemma_tail_part(s: Seq<char>) -> (b: Seq<char>)
    ensures
        s == text::without_tail(s) + b,
        is_blank(b),
        text::without_tail(s).len() > 0 ==> !text::white_space(text::without_tail(s).last()),
    decreases s.len(),
{
    if s.len() > 0 && text::white_space(s.last()) {
        let rest = lemma_tail_part(s.drop_last());
        let b = rest.push(s.last());
        let w = text::without_tail(s.drop_last());
        assert(s =~= s.drop_last().push(s.last()));
        assert(w + b =~= (w + rest).push(s.last()));
        b
    } else {
        assert(s =~= s + Seq::<char>::empty());
        Seq::empty()
    }
}

/// Whether a character is one of a letter, small or capital.
pub open spec fn is_letter(c: char, small: char, capital: char) -> bool {
    c == small || c == capital
}

/// An order sells if its side is the word for it, in small letters or capitals.
pub proof fn law_a_sale_is_named_in_any_case(side: Seq<char>)
    ensures
        pending::is_sale(side) <==> {
            &&& side.len() == 4
            &&& is_letter(side[0], 's', 'S')
            &&& is_letter(side[1], 'e', 'E')
            &&& is_letter(side[2], 'l', 'L')
            &&& is_letter(side[3], 'l', 'L')
        },
{
    reveal_strlit("SELL");
    let a = text::small(side);
    let b = text::small("SELL"@);
    assert(b.len() == 4);
    assert(b[0] == 's' && b[1] == 'e' && b[2] == 'l' && b[3] == 'l');
    if side.len() == 4 {
        assert(a[0] == text::small_char(side[0]));
        assert(a[1] == text::small_char(side[1]));
        assert(a[2] == text::small_char(side[2]));
        assert(a[3] == text::small_char(side[3]));
        if pending::is_sale(side) {
            assert(a[0] == b[0] && a[1] == b[1] && a[2] == b[2] && a[3] == b[3]);
        } else if is_letter(side[0], 's', 'S') && is_letter(side[1], 'e', 'E') && is_letter(
            side[2],
            'l',
            'L',
        ) && is_letter(side[3], 'l', 'L') {
            assert(a =~= b);
        }
    } else {
        assert(a.len() == side.len());
    }
}

/// Joined texts stand one after the other with the separator between any two.
pub proof fn law_joined_texts_are_separated(parts: Seq<Seq<char>>, sep: Seq<char>, x: Seq<char>)
    ensures
        text::joined(Seq::empty(), sep) == Seq::<char>::empty(),
        text::joined(seq![x], sep) == x,
        parts.len() > 0 ==> text::joined(parts.push(x), sep) == text::joined(parts, sep) + sep + x,
{
    assert(parts.push(x).drop_last() =~= parts);
}

/// The head of a text is what it starts with, as long as asked for or all of it.
pub proof fn law_the_head_is_what_a_text_starts_with(s: Seq<char>, n: int)
    requires
        n >= 0,
    ensures
        text::first_chars(s, n).is_prefix_of(s),
        text::first_chars(s, n).len() == if s.len() < n {
            s.len() as int
        } else {
            n
        },
{
    if s.len() > n {
        assert(s.take(n) =~= s.subrange(0, n));
    }
}

/// A text holds another where it stands between something before and behind it.
pub proof fn law_a_text_holds_what_stands_in_it(a: Seq<char>, needle: Seq<char>, b: Seq<char>)
    ensures
        text::holds(a + needle + b, needle),
{
    let s = a + needle + b;
    let i = a.len() as int;
    assert(s.subrange(i, i + needle.len()) =~= needle);
}

/// A typed ISIN counts without the white space around it, in capitals, from six
/// characters on.
pub proof fn law_a_typed_isin_is_trimmed_and_raised(a: Seq<char>, s: Seq<char>, b: Seq<char>)
    requires
        is_blank(a),
        is_blank(b),
        is_tight(s),
        vstd::utf8::is_ascii_chars(s),
    ensures
        s.len() >= 6 ==> screen::typed_isin(a + s + b) == Some(text::capitals(s)),
        s.len() < 6 ==> screen::typed_isin(a + s + b) is None,
        screen::typed_query(a + s + b) == Some(s),
        screen::typed_query(a) is None,
        workspace::normal(a + s + b) == text::capitals(s),
        text::capitals(s).len() == s.len(),
        forall|i: int|
            0 <= i < s.len() ==> #[trigger] text::capitals(s)[i] == if 'a' <= s[i] <= 'z' {
                (s[i] as u8 - 32) as char
            } else {
                s[i]
            },
{
    law_trimming_takes_white_space_off(a, s, b);
    vstd::utf8::is_ascii_chars_encode_utf8(s);
}

/// Whether a word is the one that confirms an order, in small letters or capitals.
pub open spec fn says_confirm(s: Seq<char>) -> bool {
    &&& s.len() == 7
    &&& is_letter(s[0], 'c', 'C')
    &&& is_letter(s[1], 'o', 'O')
    &&& is_letter(s[2], 'n', 'N')
    &&& is_letter(s[3], 'f', 'F')
    &&& is_letter(s[4], 'i', 'I')
    &&& is_letter(s[5], 'r', 'R')
    &&& is_letter(s[6], 'm', 'M')
}

proof fn lemma_confirms(s: Seq<char>)
    ensures
        (text::small(s) == text::small("confirm"@)) == says_confirm(s),
{
    reveal_strlit("confirm");
    let a = text::small(s);
    let b = text::small("confirm"@);
    assert(b.len() == 7);
    assert(b[0] == 'c' && b[1] == 'o' && b[2] == 'n' && b[3] == 'f' && b[4] == 'i' && b[5] == 'r'
        && b[6] == 'm');
    assert(a.len() == s.len());
    if s.len() == 7 {
        assert(a[0] == text::small_char(s[0]) && a[1] == text::small_char(s[1]));
        assert(a[2] == text::small_char(s[2]) && a[3] == text::small_char(s[3]));
        assert(a[4] == text::small_char(s[4]) && a[5] == text::small_char(s[5]));
        assert(a[6] == text::small_char(s[6]));
        if a == b {
            assert(a[0] == b[0] && a[1] == b[1] && a[2] == b[2] && a[3] == b[3] && a[4] == b[4]
                && a[5] == b[5] && a[6] == b[6]);
        } else if says_confirm(s) {
            assert(a =~= b);
        }
    }
}

/// An order can be submitted just where the word to confirm it was typed, it may be
/// traded, its confirmation has not expired, and what is unsuitable was accepted.
pub proof fn law_an_order_is_confirmed_by_word(
    typed: Seq<char>,
    p: crate::model::TradePreview,
    now: Option<crate::num::Num>,
    accept_unsuitable: bool,
)
    ensures
        screen::is_armed(typed, p, now, accept_unsuitable) <==> {
            &&& says_confirm(text::trimmed(typed))
            &&& p.tradable
            &&& !crate::model::preview::has_passed(p.expires_at_epoch, now)
            &&& p.requires_accept_unsuitable ==> accept_unsuitable
        },
{
    lemma_confirms(text::trimmed(typed));
}

} // verus!
