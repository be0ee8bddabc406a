//! Lexicographic ordering on strings, for the sorted listings the store
//! hands out.

use vstd::prelude::*;

verus! {

/// `a` comes no later than `b` in lexicographic order over the characters'
/// scalar values.
pub open spec fn lex_le(a: Seq<char>, b: Seq<char>) -> bool
    decreases a.len(),
{
    if a.len() == 0 {
        true
    } else if b.len() == 0 {
        false
    } else if (a[0] as int) < (b[0] as int) {
        true
    } else if (b[0] as int) < (a[0] as int) {
        false
    } else {
        lex_le(a.drop_first(), b.drop_first())
    }
}

/// Any two strings are ordered one way or the other.
pub proof fn lemma_lex_le_total(a: Seq<char>, b: Seq<char>)
    ensures
        lex_le(a, b) || lex_le(b, a),
    decreases a.len(),
{
    if a.len() > 0 && b.len() > 0 && (a[0] as int) == (b[0] as int) {
        lemma_lex_le_total(a.drop_first(), b.drop_first());
    }
}

/// Each string of `s` comes no later than the next.
pub open spec fn strs_sorted(s: Seq<Seq<char>>) -> bool {
    forall|i: int| 0 <= i < s.len() - 1 ==> lex_le(#[trigger] s[i], s[i + 1])
}

/// `x` placed at its position in an ascending listing: after the longest
/// prefix whose last string comes no later than it.
pub open spec fn insert_str(s: Seq<Seq<char>>, x: Seq<char>) -> Seq<Seq<char>>
    decreases s.len(),
{
    if s.len() == 0 {
        seq![x]
    } else if lex_le(s.last(), x) {
        s.push(x)
    } else {
        insert_str(s.drop_last(), x).push(s.last())
    }
}

/// Inserting into an ascending listing keeps it ascending.
pub proof fn lemma_insert_str_ordered(s: Seq<Seq<char>>, x: Seq<char>)
    requires
        strs_sorted(s),
    ensures
        strs_sorted(insert_str(s, x)),
        insert_str(s, x).len() == s.len() + 1,
        insert_str(s, x).last() == (if s.len() > 0 && !lex_le(s.last(), x) {
            s.last()
        } else {
            x
        }),
    decreases s.len(),
{
    if s.len() == 0 {
    } else if lex_le(s.last(), x) {
        let t = s.push(x);
        assert forall|i: int| 0 <= i < t.len() - 1 implies lex_le(#[trigger] t[i], t[i + 1]) by {
            if i < s.len() - 1 {
                assert(lex_le(s[i], s[i + 1]));
            }
        }
    } else {
        assert(strs_sorted(s.drop_last())) by {
            assert forall|i: int|
                0 <= i < s.drop_last().len() - 1 implies lex_le(
                #[trigger] s.drop_last()[i],
                s.drop_last()[i + 1],
            ) by {
                assert(lex_le(s[i], s[i + 1]));
            }
        }
        lemma_insert_str_ordered(s.drop_last(), x);
        lemma_lex_le_total(s.last(), x);
        let t0 = insert_str(s.drop_last(), x);
        let t = t0.push(s.last());
        assert(lex_le(t0.last(), s.last())) by {
            if s.drop_last().len() > 0 && !lex_le(s.drop_last().last(), x) {
                assert(lex_le(s[s.len() - 2], s[s.len() - 1]));
            }
        }
        assert forall|i: int| 0 <= i < t.len() - 1 implies lex_le(#[trigger] t[i], t[i + 1]) by {
            if i < t0.len() - 1 {
                assert(lex_le(t0[i], t0[i + 1]));
            }
        }
    }
}

proof fn lemma_insert_str_multiset(s: Seq<Seq<char>>, x: Seq<char>)
    ensures
        insert_str(s, x).to_multiset() == s.to_multiset().insert(x),
    decreases s.len(),
{
    broadcast use vstd::seq_lib::group_to_multiset_ensures;

    if s.len() == 0 {
        assert(seq![x] =~= Seq::<Seq<char>>::empty().push(x));
        assert(insert_str(s, x).to_multiset() =~= s.to_multiset().insert(x));
    } else if lex_le(s.last(), x) {
    } else {
        lemma_insert_str_multiset(s.drop_last(), x);
        assert(s =~= s.drop_last().push(s.last()));
        assert(s.to_multiset() == s.drop_last().push(s.last()).to_multiset());
        assert(insert_str(s, x).to_multiset() =~= s.to_multiset().insert(x));
    }
}

/// The listing after an insertion holds the old strings and the new one,
/// nothing else.
pub proof fn lemma_insert_str_contains(s: Seq<Seq<char>>, x: Seq<char>, y: Seq<char>)
    ensures
        insert_str(s, x).contains(y) <==> (s.contains(y) || y == x),
{
    broadcast use vstd::seq_lib::group_to_multiset_ensures;
    broadcast use vstd::multiset::group_multiset_axioms;

    lemma_insert_str_multiset(s, x);
    assert(insert_str(s, x).to_multiset().count(y) == s.to_multiset().count(y) + (if y == x {
        1int
    } else {
        0int
    }));
}

/// Inserting a string that is not yet listed keeps the listing free of
/// duplicates.
pub proof fn lemma_insert_str_no_duplicates(s: Seq<Seq<char>>, x: Seq<char>)
    requires
        s.no_duplicates(),
        !s.contains(x),
    ensures
        insert_str(s, x).no_duplicates(),
{
    broadcast use vstd::seq_lib::group_to_multiset_ensures;
    broadcast use vstd::multiset::group_multiset_axioms;

    lemma_insert_str_multiset(s, x);
    s.lemma_multiset_has_no_duplicates();
    let t = insert_str(s, x);
    assert forall|y: Seq<char>| t.to_multiset().contains(y) implies t.to_multiset().count(y)
        == 1 by {
        if y == x {
            assert(s.to_multiset().count(x) == 0);
        } else {
            assert(t.to_multiset().count(y) == s.to_multiset().count(y));
        }
    }
    t.lemma_multiset_has_no_duplicates_conv();
}

/// Places one string at its position in an ascending listing.
pub fn insert_string_sorted(v: &mut Vec<String>, x: String)
    ensures
        final(v).deep_view() == insert_str(old(v).deep_view(), x@),
{
    let ghost s = old(v).deep_view();
    let ghost xv = x@;
    let mut j: usize = v.len();
    proof {
        assert(s.take(j as int) =~= s);
        assert(s.skip(j as int) =~= Seq::<Seq<char>>::empty());
        assert(insert_str(s, xv) =~= insert_str(s.take(j as int), xv) + s.skip(j as int));
    }
    while j > 0 && !str_le(v[j - 1].as_str(), x.as_str())
        invariant
            j <= v@.len(),
            s == v.deep_view(),
            xv == x@,
            insert_str(s, xv) == insert_str(s.take(j as int), xv) + s.skip(j as int),
        decreases j,
    {
        proof {
            assert(v.deep_view()[j - 1] == v@[j - 1]@);
            assert(s.take(j as int).last() == s[j - 1]);
            assert(s.take(j as int).drop_last() =~= s.take(j as int - 1));
            assert(insert_str(s.take(j as int), xv) == insert_str(s.take(j as int - 1), xv).push(
                s[j - 1],
            ));
            assert(insert_str(s.take(j as int - 1), xv) + s.skip(j as int - 1) =~= insert_str(
                s.take(j as int),
                xv,
            ) + s.skip(j as int));
        }
        j = j - 1;
    }
    proof {
        if j == 0 {
            assert(s.take(0) =~= Seq::<Seq<char>>::empty());
            assert(insert_str(s.take(0), xv) == seq![xv]);
        } else {
            assert(v.deep_view()[j - 1] == v@[j - 1]@);
            assert(s.take(j as int).last() == s[j - 1]);
            assert(insert_str(s.take(j as int), xv) == s.take(j as int).push(xv));
        }
        assert(insert_str(s, xv) =~= s.insert(j as int, xv));
    }
    v.insert(j, x);
    proof {
        assert(v.deep_view() =~= s.insert(j as int, xv));
    }
}

/// True when `x` comes no later than `y` in lexicographic order.
pub fn str_le(x: &str, y: &str) -> (r: bool)
    ensures
        r == lex_le(x@, y@),
{
    let xn = x.unicode_len();
    let yn = y.unicode_len();
    let mut i: usize = 0;
    proof {
        assert(x@.skip(0) =~= x@);
        assert(y@.skip(0) =~= y@);
    }
    while i < xn && i < yn
        invariant
            i <= xn,
            i <= yn,
            xn == x@.len(),
            yn == y@.len(),
            lex_le(x@, y@) == lex_le(x@.skip(i as int), y@.skip(i as int)),
        decreases xn - i,
    {
        let cx = x.get_char(i);
        let cy = y.get_char(i);
        if (cx as u32) < (cy as u32) {
            proof {
                assert(x@.skip(i as int)[0] == cx);
                assert(y@.skip(i as int)[0] == cy);
            }
            return true;
        }
        if (cy as u32) < (cx as u32) {
            proof {
                assert(x@.skip(i as int)[0] == cx);
                assert(y@.skip(i as int)[0] == cy);
            }
            return false;
        }
        proof {
            assert(x@.skip(i as int)[0] == cx);
            assert(y@.skip(i as int)[0] == cy);
            assert(x@.skip(i as int).drop_first() =~= x@.skip(i as int + 1));
            assert(y@.skip(i as int).drop_first() =~= y@.skip(i as int + 1));
        }
        i = i + 1;
    }
    proof {
        if i == xn {
            assert(x@.skip(i as int).len() == 0);
        } else {
            assert(y@.skip(i as int).len() == 0);
            assert(x@.skip(i as int).len() > 0);
        }
    }
    xn <= yn
}

} // verus!
