//! Text helpers: comparing and building the strings of the planner.

use vstd::prelude::*;
use crate::models::view_each;

verus! {

/// `str::eq` of the standard library: two string slices are equal exactly
/// when they hold the same characters in the same order.
pub assume_specification[ <str as PartialEq>::eq ](a: &str, b: &str) -> (same: bool)
    ensures
        same == (a@ == b@),
;

/// Whether the list holds the text.
pub fn contains_text(list: &Vec<String>, text: &str) -> (found: bool)
    ensures
        found == view_each(list@).contains(text@),
{
    let mut i: usize = 0;
    while i < list.len()
        invariant
            i <= list.len(),
            forall|j: int| 0 <= j < i ==> list@[j]@ != text@,
        decreases list.len() - i,
    {
        if list[i].as_str().eq(text) {
            assert(view_each(list@)[i as int] == text@);
            return true;
        }
        i += 1;
    }
    assert forall|j: int| 0 <= j < view_each(list@).len() implies view_each(list@)[j]
        != text@ by {
        assert(list@[j]@ != text@);
    }
    false
}

/// The least index at which the list holds the text, if it holds it.
pub open spec fn first_index_of(texts: Seq<Seq<char>>, text: Seq<char>) -> Option<int>
    decreases texts.len(),
{
    if texts.len() == 0 {
        None
    } else {
        match first_index_of(texts.drop_last(), text) {
            Some(i) => Some(i),
            None => if texts.last() == text {
                Some(texts.len() - 1)
            } else {
                None
            },
        }
    }
}

/// `first_index_of` is the least index that holds the text.
pub proof fn lemma_first_index_of(texts: Seq<Seq<char>>, text: Seq<char>)
    ensures
        match first_index_of(texts, text) {
            Some(i) => 0 <= i < texts.len() && texts[i] == text && forall|j: int|
                0 <= j < i ==> texts[j] != text,
            None => forall|j: int| 0 <= j < texts.len() ==> texts[j] != text,
        },
    decreases texts.len(),
{
    if texts.len() > 0 {
        let front = texts.drop_last();
        lemma_first_index_of(front, text);
        assert(forall|j: int| 0 <= j < front.len() ==> front[j] == texts[j]);
    }
}

/// An index that holds the text, with no earlier one that does, is the
/// first index of the text.
pub proof fn lemma_first_index_is(texts: Seq<Seq<char>>, text: Seq<char>, i: int)
    requires
        0 <= i < texts.len(),
        texts[i] == text,
        forall|j: int| 0 <= j < i ==> texts[j] != text,
    ensures
        first_index_of(texts, text) == Some(i),
{
    lemma_first_index_of(texts, text);
}

/// A list that does not hold the text has no first index of it.
pub proof fn lemma_first_index_none(texts: Seq<Seq<char>>, text: Seq<char>)
    requires
        forall|j: int| 0 <= j < texts.len() ==> texts[j] != text,
    ensures
        first_index_of(texts, text) is None,
{
    lemma_first_index_of(texts, text);
}

/// The character of a decimal digit.
pub open spec fn digit_char(d: nat) -> char {
    if d == 0 {
        '0'
    } else if d == 1 {
        '1'
    } else if d == 2 {
        '2'
    } else if d == 3 {
        '3'
    } else if d == 4 {
        '4'
    } else if d == 5 {
        '5'
    } else if d == 6 {
        '6'
    } else if d == 7 {
        '7'
    } else if d == 8 {
        '8'
    } else {
        '9'
    }
}

/// A number written in decimal, without leading zeros.
pub open spec fn decimal(n: nat) -> Seq<char>
    decreases n,
{
    if n < 10 {
        seq![digit_char(n)]
    } else {
        decimal(n / 10).push(digit_char(n % 10))
    }
}

fn digit_text(d: usize) -> (text: &'static str)
    requires
        d < 10,
    ensures
        text@ == seq![digit_char(d as nat)],
{
    proof {
        reveal_strlit("0");
        reveal_strlit("1");
        reveal_strlit("2");
        reveal_strlit("3");
        reveal_strlit("4");
        reveal_strlit("5");
        reveal_strlit("6");
        reveal_strlit("7");
        reveal_strlit("8");
        reveal_strlit("9");
    }
    let text = if d == 0 {
        "0"
    } else if d == 1 {
        "1"
    } else if d == 2 {
        "2"
    } else if d == 3 {
        "3"
    } else if d == 4 {
        "4"
    } else if d == 5 {
        "5"
    } else if d == 6 {
        "6"
    } else if d == 7 {
        "7"
    } else if d == 8 {
        "8"
    } else {
        "9"
    };
    assert(text@ =~= seq![digit_char(d as nat)]);
    text
}

/// Writes a number in decimal.
pub fn decimal_text(n: usize) -> (text: String)
    ensures
        text@ == decimal(n as nat),
    decreases n,
{
    if n < 10 {
        String::from_str(digit_text(n))
    } else {
        let mut text = decimal_text(n / 10);
        text.append(digit_text(n % 10));
        assert(text@ =~= decimal((n / 10) as nat).push(digit_char((n % 10) as nat)));
        text
    }
}

/// The texts one after the other, with the separator between each two.
pub open spec fn joined(items: Seq<Seq<char>>, separator: Seq<char>) -> Seq<char>
    decreases items.len(),
{
    if items.len() == 0 {
        Seq::empty()
    } else if items.len() == 1 {
        items[0]
    } else {
        joined(items.drop_last(), separator) + separator + items.last()
    }
}

/// Joins the texts with `", "` between each two.
pub fn join_with_commas(items: &Vec<String>) -> (text: String)
    ensures
        text@ == joined(view_each(items@), ", "@),
{
    let ghost all = view_each(items@);
    let mut text = String::new();
    let mut i: usize = 0;
    assert(all.subrange(0, 0) =~= Seq::<Seq<char>>::empty());
    while i < items.len()
        invariant
            i <= items.len(),
            all == view_each(items@),
            text@ == joined(all.subrange(0, i as int), ", "@),
        decreases items.len() - i,
    {
        proof {
            let upto = all.subrange(0, i + 1);
            assert(upto.drop_last() =~= all.subrange(0, i as int));
            assert(upto.last() == items@[i as int]@);
            if i == 0 {
                assert(upto[0] == items@[0]@);
                assert(Seq::<char>::empty() + items@[0]@ =~= items@[0]@);
            }
        }
        if i > 0 {
            text.append(", ");
        }
        text.append(items[i].as_str());
        i += 1;
    }
    assert(all.subrange(0, i as int) =~= all);
    text
}

} // verus!
