use vstd::prelude::*;

use crate::expand::{split_commas, split_values, strs};

verus! {

pub open spec fn is_digit(c: char) -> bool {
    '0' <= c && c <= '9'
}

/// A non-empty run of decimal digits.
pub open spec fn is_number(s: Seq<char>) -> bool {
    s.len() > 0 && forall|i: int| 0 <= i < s.len() ==> is_digit(#[trigger] s[i])
}

/// The value of a run of decimal digits.
pub open spec fn number_value(s: Seq<char>) -> nat
    decreases s.len(),
{
    if s.len() == 0 {
        0
    } else {
        number_value(s.drop_last()) * 10 + (s.last() as nat - '0' as nat) as nat
    }
}

/// How many indices one item of a completed-index list names: `a` names one,
/// `a-b` names `b - a + 1`; `None` for anything else or a bound past `usize`.
pub open spec fn item_count(p: Seq<char>) -> Option<nat> {
    if is_number(p) {
        if number_value(p) <= usize::MAX {
            Some(1)
        } else {
            None
        }
    } else if exists|d: int| 0 <= d < p.len() && p[d] == '-' && is_number(p.subrange(0, d))
        && is_number(p.subrange(d + 1, p.len() as int)) {
        let d = choose|d: int|
            0 <= d < p.len() && p[d] == '-' && is_number(p.subrange(0, d)) && is_number(
                p.subrange(d + 1, p.len() as int),
            );
        let a = number_value(p.subrange(0, d));
        let b = number_value(p.subrange(d + 1, p.len() as int));
        if a <= b && b < usize::MAX {
            Some((b - a + 1) as nat)
        } else {
            None
        }
    } else {
        None
    }
}

/// The total of the item counts of `items`; `None` if any item is malformed or
/// a running total passes `usize`.
pub open spec fn items_total(items: Seq<Seq<char>>) -> Option<nat>
    decreases items.len(),
{
    if items.len() == 0 {
        Some(0)
    } else {
        match (items_total(items.drop_last()), item_count(items.last())) {
            (Some(t), Some(c)) => if t + c <= usize::MAX {
                Some(t + c)
            } else {
                None
            },
            _ => None,
        }
    }
}

/// The number of indices a completed-index list such as `1,3-5,7` names (an
/// empty list names none); `None` for a malformed list.
pub open spec fn completed_count(s: Seq<char>) -> Option<nat> {
    if s.len() == 0 {
        Some(0)
    } else {
        items_total(split_commas(s))
    }
}

/// The value of the digits `s[from..to]`, or `None` when it is not a number or
/// does not fit in `usize`.
fn parse_number(s: &str, from: usize, to: usize) -> (r: Option<usize>)
    requires
        from <= to <= s@.len(),
    ensures
        match r {
            Some(v) => is_number(s@.subrange(from as int, to as int)) && v == number_value(
                s@.subrange(from as int, to as int),
            ),
            None => !is_number(s@.subrange(from as int, to as int)) || number_value(
                s@.subrange(from as int, to as int),
            ) > usize::MAX,
        },
{
    if from == to {
        return None;
    }
    let mut v: usize = 0;
    let mut i: usize = from;
    while i < to
        invariant
            from <= i <= to <= s@.len(),
            is_number(s@.subrange(from as int, i as int)) || i == from,
            v == number_value(s@.subrange(from as int, i as int)),
        decreases to - i,
    {
        let c = s.get_char(i);
        let ghost prev = s@.subrange(from as int, i as int);
        let ghost next = s@.subrange(from as int, i + 1);
        proof {
            assert(next.drop_last() =~= prev);
            assert(next.last() == c);
        }
        if !('0' <= c && c <= '9') {
            proof {
                assert(!is_number(s@.subrange(from as int, to as int))) by {
                    assert(s@.subrange(from as int, to as int)[i - from] == c);
                }
            }
            return None;
        }
        let d = (c as u32 - '0' as u32) as usize;
        if v > (usize::MAX - d) / 10 {
            proof {
                assert(number_value(next) > usize::MAX) by (nonlinear_arith)
                    requires
                        number_value(next) == v * 10 + d,
                        v > (usize::MAX - d) / 10,
                        d <= 9,
                ;
                let whole = s@.subrange(from as int, to as int);
                if is_number(whole) {
                    lemma_number_value_grows(whole, (i + 1 - from) as int);
                    assert(whole.subrange(0, (i + 1 - from) as int) =~= next);
                }
                assert forall|k: int| 0 <= k < next.len() implies is_digit(#[trigger] next[k]) by {
                    if k < prev.len() {
                        assert(next[k] == prev[k]);
                    }
                }
            }
            return None;
        }
        v = v * 10 + d;
        proof {
            assert forall|k: int| 0 <= k < next.len() implies is_digit(#[trigger] next[k]) by {
                if k < prev.len() {
                    assert(next[k] == prev[k]);
                }
            }
        }
        i = i + 1;
    }
    Some(v)
}

/// A number never shrinks when digits are appended to it.
proof fn lemma_number_value_grows(s: Seq<char>, k: int)
    requires
        0 <= k <= s.len(),
        forall|i: int| 0 <= i < s.len() ==> is_digit(#[trigger] s[i]),
    ensures
        number_value(s) >= number_value(s.subrange(0, k)),
    decreases s.len() - k,
{
    if k < s.len() {
        lemma_number_value_grows(s, k + 1);
        let t = s.subrange(0, k + 1);
        assert(t.drop_last() =~= s.subrange(0, k));
    } else {
        assert(s.subrange(0, k) =~= s);
    }
}

/// Position of the first `-` in `s`, or `s`'s length.
fn find_dash(s: &str) -> (r: usize)
    ensures
        r <= s@.len(),
        r < s@.len() ==> s@[r as int] == '-',
        forall|i: int| 0 <= i < r ==> s@[i] != '-',
{
    let n = s.unicode_len();
    let mut i: usize = 0;
    while i < n
        invariant
            n == s@.len(),
            0 <= i <= n,
            forall|k: int| 0 <= k < i ==> s@[k] != '-',
        decreases n - i,
    {
        if s.get_char(i) == '-' {
            return i;
        }
        i = i + 1;
    }
    n
}

/// How many indices one item (`a` or `a-b`) of a completed-index list names.
fn parse_item(p: &str) -> (r: Option<usize>)
    ensures
        match r {
            Some(c) => item_count(p@) == Some(c as nat),
            None => item_count(p@) is None,
        },
{
    let n = p.unicode_len();
    let d = find_dash(p);
    proof {
        assert(p@.subrange(0, n as int) =~= p@);
    }
    if d == n {
        return match parse_number(p, 0, n) {
            Some(_) => Some(1),
            None => None,
        };
    }
    proof {
        assert(!is_number(p@)) by {
            assert(!is_digit(p@[d as int]));
        }
    }
    let a = parse_number(p, 0, d);
    let b = parse_number(p, d + 1, n);
    proof {
        assert forall|k: int|
            0 <= k < p@.len() && p@[k] == '-' && is_number(p@.subrange(0, k)) && is_number(
                p@.subrange(k + 1, p@.len() as int),
            ) implies k == d by {
            if k > d {
                assert(p@.subrange(0, k)[d as int] == '-');
            }
            if k < d {
                assert(p@[k] != '-');
            }
        }
    }
    match (a, b) {
        (Some(a), Some(b)) => {
            if a <= b && b < usize::MAX {
                Some(b - a + 1)
            } else {
                None
            }
        },
        _ => None,
    }
}

/// The number of indices a completed-index list such as `1,3-5,7` names;
/// `None` for a malformed list or a count past `usize`.
pub fn count_completed_indexes(s: &str) -> (r: Option<usize>)
    ensures
        match r {
            Some(c) => completed_count(s@) == Some(c as nat),
            None => completed_count(s@) is None,
        },
{
    if s.unicode_len() == 0 {
        return Some(0);
    }
    let items = split_values(s, 0);
    proof {
        assert(s@.subrange(0, s@.len() as int) =~= s@);
    }
    let ghost its = strs(items@);
    let mut total: usize = 0;
    let mut i: usize = 0;
    proof {
        assert(its.subrange(0, 0) =~= Seq::<Seq<char>>::empty());
    }
    while i < items.len()
        invariant
            its == strs(items@),
            its == split_commas(s@),
            s@.len() > 0,
            0 <= i <= items@.len(),
            items_total(its.subrange(0, i as int)) == Some(total as nat),
        decreases items@.len() - i,
    {
        proof {
            assert(its.subrange(0, i + 1).drop_last() =~= its.subrange(0, i as int));
            assert(its.subrange(0, i + 1).last() == items@[i as int]@);
        }
        match parse_item(items[i].as_str()) {
            Some(c) => {
                if total > usize::MAX - c {
                    proof {
                        lemma_items_total_none_extends(its, i + 1);
                    }
                    return None;
                }
                total = total + c;
            },
            None => {
                proof {
                    lemma_items_total_none_extends(its, i + 1);
                }
                return None;
            },
        }
        i = i + 1;
    }
    proof {
        assert(its.subrange(0, i as int) =~= its);
    }
    Some(total)
}

proof fn lemma_items_total_none_extends(items: Seq<Seq<char>>, i: int)
    requires
        0 <= i <= items.len(),
        items_total(items.subrange(0, i)) is None,
    ensures
        items_total(items) is None,
    decreases items.len() - i,
{
    if i < items.len() {
        assert(items.subrange(0, i + 1).drop_last() =~= items.subrange(0, i));
        lemma_items_total_none_extends(items, i + 1);
    } else {
        assert(items.subrange(0, i) =~= items);
    }
}

} // verus!
