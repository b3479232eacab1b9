//! Helpers for rendering values in aligned table output.
//!
//! Table rendering wants a text for every field. [`Opt`] wraps an optional
//! field so the surrounding application can render `None` as an empty cell,
//! and [`display`] turns a list of already-rendered items into one sorted,
//! newline-separated block.

use vstd::prelude::*;
use vstd::multiset::Multiset;
use vstd::seq_lib::group_to_multiset_ensures;
use vstd::seq_lib::lemma_multiset_commutative;

verus! {

/// A wrapper around an optional field for table output. The surrounding
/// application renders the `None` case as an empty cell.
#[derive(Debug, Clone)]
pub struct Opt<T>(pub Option<T>);

impl<T> From<Option<T>> for Opt<T> {
    fn from(option: Option<T>) -> (r: Self) {
        match option {
            Some(value) => Opt(Some(value)),
            None => Opt(None),
        }
    }
}

impl<T> vstd::std_specs::convert::FromSpecImpl<Option<T>> for Opt<T> {
    open spec fn obeys_from_spec() -> bool {
        true
    }

    open spec fn from_spec(option: Option<T>) -> Self {
        Opt(option)
    }
}

/// Lexicographic order on character sequences, by code point: the order in
/// which rendered items are lined up.
pub open spec fn lex_le(a: Seq<char>, b: Seq<char>) -> bool
    decreases a.len(),
{
    if a.len() == 0 {
        true
    } else if b.len() == 0 {
        false
    } else if a[0] == b[0] {
        lex_le(a.skip(1), b.skip(1))
    } else {
        (a[0] as u32) < (b[0] as u32)
    }
}

/// `x` inserted into `s` in front of the first element it precedes.
pub open spec fn insert_sorted(x: Seq<char>, s: Seq<Seq<char>>) -> Seq<Seq<char>>
    decreases s.len(),
{
    if s.len() == 0 {
        seq![x]
    } else if lex_le(x, s[0]) {
        seq![x] + s
    } else {
        seq![s[0]] + insert_sorted(x, s.skip(1))
    }
}

/// The sequence sorted by [`lex_le`], one insertion at a time.
pub open spec fn sort_spec(s: Seq<Seq<char>>) -> Seq<Seq<char>>
    decreases s.len(),
{
    if s.len() == 0 {
        Seq::empty()
    } else {
        insert_sorted(s.last(), sort_spec(s.drop_last()))
    }
}

/// The character sequences behind a sequence of strings.
pub open spec fn views(s: Seq<String>) -> Seq<Seq<char>> {
    s.map_values(|x: String| x@)
}

/// The items concatenated with a newline between each adjacent pair.
pub open spec fn join_lines(s: Seq<Seq<char>>) -> Seq<char>
    decreases s.len(),
{
    if s.len() == 0 {
        Seq::empty()
    } else if s.len() == 1 {
        s[0]
    } else {
        s[0] + seq!['\n'] + join_lines(s.skip(1))
    }
}

/// Whether the items stand in [`lex_le`] order.
pub open spec fn sorted_by_lex(s: Seq<Seq<char>>) -> bool {
    forall|i: int, j: int| 0 <= i < j < s.len() ==> lex_le(#[trigger] s[i], #[trigger] s[j])
}

/// The order is total: of any two items, one precedes the other.
pub proof fn lemma_lex_le_total(a: Seq<char>, b: Seq<char>)
    ensures
        lex_le(a, b) || lex_le(b, a),
    decreases a.len(),
{
    if a.len() == 0 {
    } else if b.len() == 0 {
    } else if a[0] == b[0] {
        lemma_lex_le_total(a.skip(1), b.skip(1));
    } else {
        if (a[0] as u32) == (b[0] as u32) {
            vstd::utf8::char_u32_cast(a[0], a[0] as u32);
            vstd::utf8::char_u32_cast(b[0], b[0] as u32);
        }
    }
}

/// The order is transitive.
pub proof fn lemma_lex_le_trans(a: Seq<char>, b: Seq<char>, c: Seq<char>)
    requires
        lex_le(a, b),
        lex_le(b, c),
    ensures
        lex_le(a, c),
    decreases a.len(),
{
    if a.len() == 0 {
    } else if b.len() == 0 {
    } else if c.len() == 0 {
    } else if a[0] == b[0] && b[0] == c[0] {
        lemma_lex_le_trans(a.skip(1), b.skip(1), c.skip(1));
    }
}

proof fn lemma_insert_sorted_multiset(x: Seq<char>, s: Seq<Seq<char>>)
    ensures
        insert_sorted(x, s).to_multiset() == s.to_multiset().insert(x),
    decreases s.len(),
{
    broadcast use group_to_multiset_ensures;
    broadcast use vstd::multiset::group_multiset_axioms;

    if s.len() == 0 {
        assert(seq![x] =~= Seq::<Seq<char>>::empty().push(x));
        assert(insert_sorted(x, s).to_multiset() =~= s.to_multiset().insert(x));
    } else if lex_le(x, s[0]) {
        lemma_multiset_commutative(seq![x], s);
        assert(seq![x] =~= Seq::<Seq<char>>::empty().push(x));
        assert(seq![x].to_multiset() =~= Multiset::<Seq<char>>::empty().insert(x));
        assert(insert_sorted(x, s).to_multiset() =~= s.to_multiset().insert(x));
    } else {
        lemma_insert_sorted_multiset(x, s.skip(1));
        lemma_multiset_commutative(seq![s[0]], insert_sorted(x, s.skip(1)));
        lemma_multiset_commutative(seq![s[0]], s.skip(1));
        assert(s =~= seq![s[0]] + s.skip(1));
        assert(insert_sorted(x, s).to_multiset() =~= s.to_multiset().insert(x));
    }
}

proof fn lemma_insert_sorted_lower_bound(lo: Seq<char>, x: Seq<char>, t: Seq<Seq<char>>)
    requires
        lex_le(lo, x),
        forall|k: int| 0 <= k < t.len() ==> lex_le(lo, #[trigger] t[k]),
    ensures
        forall|k: int| 0 <= k < insert_sorted(x, t).len() ==> lex_le(
            lo,
            #[trigger] insert_sorted(x, t)[k],
        ),
    decreases t.len(),
{
    if t.len() == 0 {
    } else if lex_le(x, t[0]) {
        let r = seq![x] + t;
        assert forall|k: int| 0 <= k < r.len() implies lex_le(lo, #[trigger] r[k]) by {
            if k > 0 {
                assert(r[k] == t[k - 1]);
            }
        }
    } else {
        lemma_insert_sorted_lower_bound(lo, x, t.skip(1));
        let sub = insert_sorted(x, t.skip(1));
        let r = seq![t[0]] + sub;
        assert forall|k: int| 0 <= k < r.len() implies lex_le(lo, #[trigger] r[k]) by {
            if k > 0 {
                assert(r[k] == sub[k - 1]);
            }
        }
    }
}

proof fn lemma_insert_sorted_preserves_sorted(x: Seq<char>, s: Seq<Seq<char>>)
    requires
        sorted_by_lex(s),
    ensures
        sorted_by_lex(insert_sorted(x, s)),
    decreases s.len(),
{
    if s.len() == 0 {
    } else if lex_le(x, s[0]) {
        let r = seq![x] + s;
        assert forall|i: int, j: int| 0 <= i < j < r.len() implies lex_le(r[i], r[j]) by {
            if i == 0 {
                assert(r[j] == s[j - 1]);
                if j > 1 {
                    lemma_lex_le_trans(x, s[0], s[j - 1]);
                }
            } else {
                assert(r[i] == s[i - 1] && r[j] == s[j - 1]);
            }
        }
    } else {
        assert(forall|i: int, j: int|
            0 <= i < j < s.skip(1).len() ==> lex_le(
                #[trigger] s.skip(1)[i],
                #[trigger] s.skip(1)[j],
            ));
        lemma_insert_sorted_preserves_sorted(x, s.skip(1));
        lemma_lex_le_total(x, s[0]);
        assert(forall|k: int| 0 <= k < s.skip(1).len() ==> lex_le(s[0], #[trigger] s.skip(1)[k]));
        lemma_insert_sorted_lower_bound(s[0], x, s.skip(1));
        let sub = insert_sorted(x, s.skip(1));
        let r = seq![s[0]] + sub;
        assert forall|i: int, j: int| 0 <= i < j < r.len() implies lex_le(r[i], r[j]) by {
            assert(r[j] == sub[j - 1]);
            if i > 0 {
                assert(r[i] == sub[i - 1]);
            }
        }
    }
}

/// What [`display`] lines up is genuinely sorted: the specified sort yields
/// a sequence in [`lex_le`] order.
pub proof fn lemma_sort_spec_sorted(s: Seq<Seq<char>>)
    ensures
        sorted_by_lex(sort_spec(s)),
    decreases s.len(),
{
    if s.len() > 0 {
        lemma_sort_spec_sorted(s.drop_last());
        lemma_insert_sorted_preserves_sorted(s.last(), sort_spec(s.drop_last()));
    }
}

/// ... and loses or invents nothing: it is a permutation of its input.
pub proof fn lemma_sort_spec_multiset(s: Seq<Seq<char>>)
    ensures
        sort_spec(s).to_multiset() == s.to_multiset(),
    decreases s.len(),
{
    broadcast use group_to_multiset_ensures;

    if s.len() > 0 {
        lemma_sort_spec_multiset(s.drop_last());
        lemma_insert_sorted_multiset(s.last(), sort_spec(s.drop_last()));
        assert(s =~= s.drop_last().push(s.last()));
    }
}

/// Whether `a` precedes `b` in the [`lex_le`] order.
fn str_le(a: &str, b: &str) -> (r: bool)
    ensures
        r == lex_le(a@, b@),
{
    let na = a.unicode_len();
    let nb = b.unicode_len();
    let mut i: usize = 0;
    proof {
        assert(a@.skip(0) =~= a@);
        assert(b@.skip(0) =~= b@);
    }
    while i < na && i < nb
        invariant
            i <= na,
            i <= nb,
            na == a@.len(),
            nb == b@.len(),
            lex_le(a@, b@) == lex_le(a@.skip(i as int), b@.skip(i as int)),
        decreases na - i,
    {
        let ca = a.get_char(i);
        let cb = b.get_char(i);
        if ca != cb {
            proof {
                assert(a@.skip(i as int)[0] == a@[i as int]);
                assert(b@.skip(i as int)[0] == b@[i as int]);
            }
            return (ca as u32) < (cb as u32);
        }
        proof {
            assert(a@.skip(i as int).skip(1) =~= a@.skip(i + 1));
            assert(b@.skip(i as int).skip(1) =~= b@.skip(i + 1));
            assert(a@.skip(i as int)[0] == b@.skip(i as int)[0]);
        }
        i = i + 1;
    }
    proof {
        if i >= na {
            assert(a@.skip(i as int).len() == 0);
        } else {
            assert(b@.skip(i as int).len() == 0);
            assert(a@.skip(i as int).len() > 0);
        }
    }
    na <= nb
}

proof fn lemma_insert_sorted_at(x: Seq<char>, s: Seq<Seq<char>>, j: int)
    requires
        0 <= j <= s.len(),
        forall|k: int| 0 <= k < j ==> !lex_le(x, #[trigger] s[k]),
        j < s.len() ==> lex_le(x, s[j]),
    ensures
        insert_sorted(x, s) == s.subrange(0, j) + seq![x] + s.subrange(j, s.len() as int),
    decreases j,
{
    if j == 0 {
        if s.len() == 0 {
            assert(insert_sorted(x, s) =~= s.subrange(0, 0) + seq![x] + s.subrange(0, 0));
        } else {
            assert(insert_sorted(x, s) =~= s.subrange(0, 0) + seq![x] + s.subrange(
                0,
                s.len() as int,
            ));
        }
    } else {
        assert(!lex_le(x, s[0]));
        assert(forall|k: int| 0 <= k < j - 1 ==> !lex_le(x, #[trigger] s.skip(1)[k]));
        lemma_insert_sorted_at(x, s.skip(1), j - 1);
        assert(s.skip(1).subrange(0, j - 1) =~= s.subrange(1, j));
        assert(s.skip(1).subrange(j - 1, s.skip(1).len() as int) =~= s.subrange(
            j,
            s.len() as int,
        ));
        assert(insert_sorted(x, s) =~= s.subrange(0, j) + seq![x] + s.subrange(j, s.len() as int));
    }
}

/// Insert one item into an already sorted vector, in front of the first
/// element it precedes.
fn insert_sorted_exec(x: String, out: &mut Vec<String>)
    ensures
        views(final(out)@) == insert_sorted(x@, views(old(out)@)),
{
    let n = out.len();
    let mut j: usize = 0;
    while j < n && !str_le(x.as_str(), out[j].as_str())
        invariant
            j <= n,
            n == out@.len(),
            out == old(out),
            forall|k: int| 0 <= k < j ==> !lex_le(x@, #[trigger] views(out@)[k]),
        decreases n - j,
    {
        j = j + 1;
    }
    proof {
        lemma_insert_sorted_at(x@, views(old(out)@), j as int);
    }
    out.insert(j, x);
    proof {
        assert(views(out@) =~= views(old(out)@).subrange(0, j as int) + seq![x@] + views(
            old(out)@,
        ).subrange(j as int, old(out)@.len() as int));
    }
}

proof fn lemma_join_lines_snoc(s: Seq<Seq<char>>, x: Seq<char>)
    requires
        s.len() >= 1,
    ensures
        join_lines(s.push(x)) == join_lines(s) + seq!['\n'] + x,
    decreases s.len(),
{
    if s.len() == 1 {
        assert(s.push(x).skip(1) =~= seq![x]);
        assert(join_lines(seq![x]) == x);
        assert(s.push(x)[0] == s[0]);
        assert(join_lines(s.push(x)) =~= join_lines(s) + seq!['\n'] + x);
    } else {
        lemma_join_lines_snoc(s.skip(1), x);
        assert(s.push(x).skip(1) =~= s.skip(1).push(x));
        assert(s.push(x)[0] == s[0]);
        assert(join_lines(s.push(x)) =~= join_lines(s) + seq!['\n'] + x);
    }
}

/// Format a list of already-rendered items for one table cell: the items
/// sorted, then concatenated with newlines.
pub fn display(value: &Vec<String>) -> (r: String)
    ensures
        r@ == join_lines(sort_spec(views(value@))),
{
    let n = value.len();
    let mut sorted_items: Vec<String> = Vec::new();
    let mut i: usize = 0;
    proof {
        assert(views(value@.take(0)) =~= Seq::<Seq<char>>::empty());
    }
    while i < n
        invariant
            i <= n,
            n == value@.len(),
            views(sorted_items@) == sort_spec(views(value@.take(i as int))),
        decreases n - i,
    {
        insert_sorted_exec(value[i].clone(), &mut sorted_items);
        proof {
            assert(views(value@.take(i + 1)).drop_last() =~= views(value@.take(i as int)));
            assert(views(value@.take(i + 1)).last() == value@[i as int]@);
        }
        i = i + 1;
    }
    proof {
        assert(value@.take(n as int) =~= value@);
    }
    let m = sorted_items.len();
    let mut out = String::new();
    if m == 0 {
        return out;
    }
    out.append(sorted_items[0].as_str());
    let mut k: usize = 1;
    proof {
        assert(views(sorted_items@).take(1) =~= seq![sorted_items@[0]@]);
        assert(join_lines(seq![sorted_items@[0]@]) == sorted_items@[0]@);
    }
    while k < m
        invariant
            1 <= k <= m,
            m == sorted_items@.len(),
            out@ == join_lines(views(sorted_items@).take(k as int)),
        decreases m - k,
    {
        out.append("\n");
        out.append(sorted_items[k].as_str());
        proof {
            reveal_strlit("\n");
            assert(("\n")@ =~= seq!['\n']);
            lemma_join_lines_snoc(
                views(sorted_items@).take(k as int),
                views(sorted_items@)[k as int],
            );
            assert(views(sorted_items@).take(k + 1) =~= views(sorted_items@).take(k as int).push(
                views(sorted_items@)[k as int],
            ));
        }
        k = k + 1;
    }
    proof {
        assert(views(sorted_items@).take(m as int) =~= views(sorted_items@));
    }
    out
}

} // verus!
