//! Sorting with duplicates removed, for report entries whose order is the
//! lexicographic `String` order of their fields.
use vstd::prelude::*;

use vstd::utf8::encode_utf8;

use crate::text::bytes_lt;

verus! {

/// `a < b` for strings given by their characters: the byte order of their
/// UTF-8 encodings.
pub open spec fn text_lt(a: Seq<char>, b: Seq<char>) -> bool {
    bytes_lt(encode_utf8(a), encode_utf8(b))
}

/// `a < b` for optional strings: `None` first.
pub open spec fn opt_text_lt(a: Option<Seq<char>>, b: Option<Seq<char>>) -> bool {
    match (a, b) {
        (None, Some(_)) => true,
        (Some(x), Some(y)) => text_lt(x, y),
        _ => false,
    }
}

/// No byte string is below itself.
pub proof fn lemma_bytes_lt_irreflexive(a: Seq<u8>)
    ensures
        !bytes_lt(a, a),
    decreases a.len(),
{
    if a.len() > 0 {
        lemma_bytes_lt_irreflexive(a.drop_first());
    }
}

/// The byte order is transitive.
pub proof fn lemma_bytes_lt_transitive(a: Seq<u8>, b: Seq<u8>, c: Seq<u8>)
    requires
        bytes_lt(a, b),
        bytes_lt(b, c),
    ensures
        bytes_lt(a, c),
    decreases a.len(),
{
    if a.len() > 0 && b.len() > 0 && c.len() > 0 && a[0] == b[0] && b[0] == c[0] {
        lemma_bytes_lt_transitive(a.drop_first(), b.drop_first(), c.drop_first());
    }
}

/// Any two byte strings are equal or ordered one way.
pub proof fn lemma_bytes_lt_total(a: Seq<u8>, b: Seq<u8>)
    ensures
        a == b || bytes_lt(a, b) || bytes_lt(b, a),
    decreases a.len(),
{
    if a.len() > 0 && b.len() > 0 && a[0] == b[0] {
        lemma_bytes_lt_total(a.drop_first(), b.drop_first());
        if a.drop_first() == b.drop_first() {
            assert(a =~= seq![a[0]] + a.drop_first());
            assert(b =~= seq![b[0]] + b.drop_first());
        }
    } else if a.len() == 0 && b.len() == 0 {
        assert(a =~= b);
    }
}

/// `text_lt` is a strict total order.
pub proof fn lemma_text_lt_order(a: Seq<char>, b: Seq<char>, c: Seq<char>)
    ensures
        !text_lt(a, a),
        text_lt(a, b) && text_lt(b, c) ==> text_lt(a, c),
        a == b || text_lt(a, b) || text_lt(b, a),
{
    lemma_bytes_lt_irreflexive(encode_utf8(a));
    if text_lt(a, b) && text_lt(b, c) {
        lemma_bytes_lt_transitive(encode_utf8(a), encode_utf8(b), encode_utf8(c));
    }
    lemma_bytes_lt_total(encode_utf8(a), encode_utf8(b));
    vstd::utf8::encode_utf8_decode_utf8(a);
    vstd::utf8::encode_utf8_decode_utf8(b);
}

/// `opt_text_lt` is a strict total order.
pub proof fn lemma_opt_text_lt_order(
    a: Option<Seq<char>>,
    b: Option<Seq<char>>,
    c: Option<Seq<char>>,
)
    ensures
        !opt_text_lt(a, a),
        opt_text_lt(a, b) && opt_text_lt(b, c) ==> opt_text_lt(a, c),
        a == b || opt_text_lt(a, b) || opt_text_lt(b, a),
{
    if a is Some && b is Some && c is Some {
        lemma_text_lt_order(a->0, b->0, c->0);
    } else if a is Some && b is Some {
        lemma_text_lt_order(a->0, b->0, b->0);
    } else if a is Some {
        lemma_text_lt_order(a->0, a->0, a->0);
    }
}

/// Values ordered by a strict total order on their views.
pub trait Ranked: View + Sized {
    /// The strict order.
    spec fn before(a: Self::V, b: Self::V) -> bool;

    proof fn lemma_order(a: Self::V, b: Self::V, c: Self::V)
        ensures
            !Self::before(a, a),
            Self::before(a, b) && Self::before(b, c) ==> Self::before(a, c),
            a == b || Self::before(a, b) || Self::before(b, a),
    ;

    /// Three-way comparison.
    fn rank(&self, other: &Self) -> (r: i8)
        ensures
            r < 0 <==> Self::before(self@, other@),
            r == 0 <==> self@ == other@,
            r > 0 <==> Self::before(other@, self@),
    ;
}

/// Strictly increasing.
pub open spec fn strictly_sorted<T: Ranked>(s: Seq<T>) -> bool {
    forall|i: int, j: int| 0 <= i < j < s.len() ==> T::before(#[trigger] s[i]@, #[trigger] s[j]@)
}

/// The views of the elements.
pub open spec fn view_set<T: View>(s: Seq<T>) -> Set<T::V> {
    Set::new(|v: T::V| exists|i: int| 0 <= i < s.len() && #[trigger] s[i]@ == v)
}

/// The elements in increasing order, each view once: `sort` followed by
/// `dedup`.
pub fn sort_dedup<T: Ranked>(items: Vec<T>) -> (r: Vec<T>)
    ensures
        strictly_sorted(r@),
        view_set(r@) == view_set(items@),
{
    let ghost input = items@;
    let mut items = items;
    let mut out: Vec<T> = Vec::new();
    while items.len() > 0
        invariant
            strictly_sorted(out@),
            items@ == input.subrange(0, items@.len() as int),
            items@.len() <= input.len(),
            view_set(out@) == view_set(input.subrange(items@.len() as int, input.len() as int)),
        decreases items@.len(),
    {
        let ghost before_items = items@;
        let ghost before_out = out@;
        let x = items.pop().unwrap();
        let ghost k = items@.len() as int;
        let mut p: usize = 0;
        let mut found = false;
        while p < out.len()
            invariant_except_break
                !found,
            invariant
                out@ == before_out,
                strictly_sorted(out@),
                0 <= p <= out@.len(),
                forall|i: int| 0 <= i < p ==> T::before(#[trigger] out@[i]@, x@),
            ensures
                found ==> p < out@.len() && out@[p as int]@ == x@,
                !found ==> p == out@.len() || T::before(x@, out@[p as int]@),
            decreases out@.len() - p,
        {
            let c = out[p].rank(&x);
            if c == 0 {
                found = true;
                break;
            }
            if c > 0 {
                break;
            }
            p = p + 1;
        }
        proof {
            let rest = input.subrange(k, input.len() as int);
            let prev = input.subrange(k + 1, input.len() as int);
            assert(rest =~= seq![x].add(prev));
            assert(input[k] == x);
        }
        if !found {
            proof {
                assert forall|i: int| p <= i < out@.len() implies T::before(x@, #[trigger] out@[i]@) by {
                    if i > p {
                        T::lemma_order(x@, out@[p as int]@, out@[i]@);
                    }
                    T::lemma_order(x@, out@[i]@, out@[i]@);
                }
            }
            out.insert(p, x);
            proof {
                let s = out@;
                assert forall|i: int, j: int| 0 <= i < j < s.len() implies T::before(
                    #[trigger] s[i]@,
                    #[trigger] s[j]@,
                ) by {
                    if j < p {
                        assert(s[i] == before_out[i] && s[j] == before_out[j]);
                    } else if j == p {
                        assert(s[i] == before_out[i]);
                    } else if i < p {
                        assert(s[i] == before_out[i] && s[j] == before_out[j - 1]);
                        T::lemma_order(s[i]@, x@, s[j]@);
                    } else if i == p {
                        assert(s[j] == before_out[j - 1]);
                    } else {
                        assert(s[i] == before_out[i - 1] && s[j] == before_out[j - 1]);
                    }
                }
            }
        }
        proof {
            let rest = input.subrange(k, input.len() as int);
            let prev = input.subrange(k + 1, input.len() as int);
            assert forall|v: T::V| view_set(out@).contains(v) <==> view_set(rest).contains(v) by {
                if view_set(out@).contains(v) {
                    let i = choose|i: int| 0 <= i < out@.len() && #[trigger] out@[i]@ == v;
                    if !found {
                        if i == p {
                            assert(rest[0]@ == v);
                        } else if i < p {
                            assert(before_out[i]@ == v);
                            assert(view_set(before_out).contains(v));
                            let j = choose|j: int| 0 <= j < prev.len() && #[trigger] prev[j]@ == v;
                            assert(rest[j + 1]@ == v);
                        } else {
                            assert(before_out[i - 1]@ == v);
                            assert(view_set(before_out).contains(v));
                            let j = choose|j: int| 0 <= j < prev.len() && #[trigger] prev[j]@ == v;
                            assert(rest[j + 1]@ == v);
                        }
                    } else {
                        assert(view_set(before_out).contains(v));
                        let j = choose|j: int| 0 <= j < prev.len() && #[trigger] prev[j]@ == v;
                        assert(rest[j + 1]@ == v);
                    }
                }
                if view_set(rest).contains(v) {
                    let j = choose|j: int| 0 <= j < rest.len() && #[trigger] rest[j]@ == v;
                    if j == 0 {
                        if found {
                            assert(out@[p as int]@ == v);
                        } else {
                            assert(out@[p as int]@ == v);
                        }
                    } else {
                        assert(prev[j - 1]@ == v);
                        assert(view_set(prev).contains(v));
                        assert(view_set(before_out).contains(v));
                        let i = choose|i: int| 0 <= i < before_out.len() && #[trigger] before_out[i]@ == v;
                        if found || i < p {
                            assert(out@[i]@ == v);
                        } else {
                            assert(out@[i + 1]@ == v);
                        }
                    }
                }
            }
            assert(view_set(out@) =~= view_set(rest));
            assert(items@ =~= input.subrange(0, items@.len() as int));
        }
    }
    proof {
        assert(input.subrange(0, input.len() as int) =~= input);
    }
    out
}

/// The keys of a keyed list are strictly ascending in `String` order, so
/// each key occurs once: the shape of a map ordered by its keys.
pub open spec fn keys_ascending<V>(entries: Seq<(String, V)>) -> bool {
    forall|i: int, j: int|
        0 <= i < j < entries.len() ==> text_lt((#[trigger] entries[i]).0@, (#[trigger] entries[j]).0@)
}

/// Whether the keys of `entries` are strictly ascending.
pub fn check_keys_ascending<V>(entries: &Vec<(String, V)>) -> (r: bool)
    ensures
        r == keys_ascending(entries@),
{
    let mut i: usize = 1;
    while i < entries.len()
        invariant
            1 <= i,
            i <= entries@.len() || entries@.len() == 0,
            forall|a: int, b: int|
                0 <= a < b < i && b < entries@.len() ==> text_lt(
                    (#[trigger] entries@[a]).0@,
                    (#[trigger] entries@[b]).0@,
                ),
        decreases entries@.len() - i,
    {
        if entries[i - 1].0.rank(&entries[i].0) >= 0 {
            return false;
        }
        proof {
            assert forall|a: int, b: int|
                0 <= a < b < i + 1 && b < entries@.len() implies text_lt(
                (#[trigger] entries@[a]).0@,
                (#[trigger] entries@[b]).0@,
            ) by {
                if b == i && a < i - 1 {
                    lemma_text_lt_order(entries@[a].0@, entries@[i - 1].0@, entries@[b].0@);
                }
            }
        }
        i = i + 1;
    }
    true
}

} // verus!
