//! Assembly of the final input list. One input list passes through unchanged;
//! several lists produce the Cartesian product of their values, each
//! combination joined with single spaces, the first list varying slowest.
//! Groups that resolved to nothing contribute nothing, as a group is only
//! ever sealed with values in it.

use vstd::prelude::*;

verus! {

/// Every combination of one element of `a` (slow) with one of `b` (fast),
/// joined with a space.
pub open spec fn cross_join(a: Seq<Seq<char>>, b: Seq<Seq<char>>) -> Seq<Seq<char>> {
    Seq::new(
        a.len() * b.len(),
        |i: int| a[i / b.len() as int] + " "@ + b[i % b.len() as int],
    )
}

/// The Cartesian product of the lists, space-joined, outer list slowest; a
/// single list passes through unchanged.
pub open spec fn cart_join(lists: Seq<Seq<Seq<char>>>) -> Seq<Seq<char>>
    decreases lists.len(),
{
    if lists.len() == 0 {
        Seq::empty()
    } else if lists.len() == 1 {
        lists[0]
    } else {
        cross_join(lists[0], cart_join(lists.drop_first()))
    }
}

/// How many combinations the product has: the product of the lengths.
pub open spec fn cart_count(lists: Seq<Seq<Seq<char>>>) -> nat
    decreases lists.len(),
{
    if lists.len() == 0 {
        0
    } else if lists.len() == 1 {
        lists[0].len()
    } else {
        lists[0].len() * cart_count(lists.drop_first())
    }
}

/// The lists that hold anything, in their original order.
pub open spec fn nonempty_lists(ls: Seq<Seq<Seq<char>>>) -> Seq<Seq<Seq<char>>>
    decreases ls.len(),
{
    if ls.len() == 0 {
        Seq::empty()
    } else {
        nonempty_lists(ls.drop_last()) + if ls.last().len() > 0 {
            seq![ls.last()]
        } else {
            Seq::empty()
        }
    }
}

/// The parts joined with single spaces.
pub open spec fn join_spaces_spec(ps: Seq<Seq<char>>) -> Seq<char>
    decreases ps.len(),
{
    if ps.len() == 0 {
        Seq::empty()
    } else if ps.len() == 1 {
        ps[0]
    } else {
        ps[0] + " "@ + join_spaces_spec(ps.drop_first())
    }
}

/// One combination of the product, joined with spaces.
fn join_spaces(parts: &Vec<&str>) -> (r: String)
    requires
        parts.deep_view().len() >= 1,
    ensures
        r@ == join_spaces_spec(parts.deep_view()),
{
    let ghost dv = parts.deep_view();
    let n = parts.len();
    let mut acc = String::from_str(parts[n - 1]);
    let mut i: usize = n - 1;
    proof {
        assert(dv.skip(i as int).len() == 1);
        assert(dv.skip(i as int)[0] == dv[i as int]);
    }
    while i > 0
        invariant
            0 <= i < n,
            n == parts@.len(),
            dv == parts.deep_view(),
            acc@ == join_spaces_spec(dv.skip(i as int)),
        decreases i,
    {
        let next = String::from_str(parts[i - 1]).concat(" ").concat(acc.as_str());
        proof {
            let rest = dv.skip(i - 1);
            assert(rest[0] == dv[i - 1]);
            assert(rest.drop_first() =~= dv.skip(i as int));
            assert(rest.len() >= 2);
        }
        acc = next;
        i = i - 1;
    }
    proof {
        assert(dv.skip(0) =~= dv);
    }
    acc
}

/// Relies on permutate::Permutator: over two or more non-empty lists it
/// yields every combination, in lexicographic order with the first list
/// varying slowest, one `Vec` of elements per combination; the combination
/// count is the product of the list lengths.
#[verifier::external_body]
fn permute_join(lists: &Vec<Vec<String>>) -> (r: Vec<String>)
    requires
        lists.deep_view().len() >= 2,
        forall|i: int|
            0 <= i < lists.deep_view().len() ==> (#[trigger] lists.deep_view()[i]).len() > 0,
        cart_count(lists.deep_view()) <= usize::MAX,
    ensures
        r.deep_view() == cart_join(lists.deep_view()),
{
    let tmp: Vec<Vec<&str>> = lists.iter().map(
        |l| l.iter().map(AsRef::as_ref).collect(),
    ).collect();
    let list_array: Vec<&[&str]> = tmp.iter().map(AsRef::as_ref).collect();
    permutate::Permutator::new(&list_array).map(|p| join_spaces(&p)).collect()
}

/// Assemble the final inputs from the resolved input lists: empty groups
/// fall away; one group is the input list itself; several groups produce
/// their space-joined Cartesian product, outer group slowest.
pub fn assemble_inputs(lists: Vec<Vec<String>>) -> (r: Vec<String>)
    requires
        cart_count(nonempty_lists(lists.deep_view())) <= usize::MAX,
    ensures
        r.deep_view() == cart_join(nonempty_lists(lists.deep_view())),
{
    let ghost orig = lists.deep_view();
    let mut rest = lists;
    let mut kept: Vec<Vec<String>> = Vec::new();
    let total = rest.len();
    proof {
        assert(kept.deep_view() =~= nonempty_lists(orig.take(0)));
        assert(rest.deep_view() =~= orig.skip(0));
    }
    let mut i: usize = 0;
    while rest.len() > 0
        invariant
            0 <= i <= total,
            orig.len() == total,
            rest.deep_view() == orig.skip(i as int),
            kept.deep_view() == nonempty_lists(orig.take(i as int)),
            forall|j: int|
                0 <= j < kept.deep_view().len() ==> (#[trigger] kept.deep_view()[j]).len() > 0,
        decreases rest@.len(),
    {
        let ghost kpre = kept.deep_view();
        let ghost rvpre = rest@;
        proof {
            assert(rest.deep_view().len() == rest@.len());
            assert(orig.skip(i as int).len() == total - i);
            assert(0 <= i < total);
        }
        let l = rest.remove(0);
        proof {
            assert(l == rvpre[0]);
            assert(l.deep_view() == orig.skip(i as int)[0]);
            assert(l.deep_view() == orig[i as int]);
            assert(rest@ == rvpre.remove(0));
            assert forall|k: int| 0 <= k < rest@.len() implies #[trigger] rest.deep_view()[k]
                == orig.skip(i + 1)[k] by {
                assert(rest@.len() == rvpre.len() - 1);
                assert(rvpre.len() == total - i);
                assert(0 <= k < total - i - 1);
                assert(rest@[k] == rvpre[k + 1]);
                assert(rest.deep_view()[k] == rvpre[k + 1].deep_view());
                assert(rvpre[k + 1].deep_view() == orig.skip(i as int)[k + 1]);
                assert(orig.skip(i as int)[k + 1] == orig[i + 1 + k]);
                assert(orig.skip(i + 1)[k] == orig[i + 1 + k]);
            }
            assert(rest.deep_view() =~= orig.skip(i + 1));
            assert(orig.take(i + 1).drop_last() =~= orig.take(i as int));
            assert(orig.take(i + 1).last() == orig[i as int]);
        }
        if l.len() > 0 {
            kept.push(l);
            proof {
                assert(kept.deep_view() =~= kpre.push(orig[i as int]));
                assert(kept.deep_view() =~= nonempty_lists(orig.take(i + 1)));
            }
        } else {
            proof {
                assert(kept.deep_view() =~= nonempty_lists(orig.take(i + 1)));
            }
        }
        i = i + 1;
    }
    proof {
        assert(orig.take(total as int) =~= orig);
        assert(kept.deep_view() == nonempty_lists(orig));
    }
    if kept.len() >= 2 {
        permute_join(&kept)
    } else if kept.len() == 1 {
        let r = kept.remove(0);
        proof {
            assert(r.deep_view() == cart_join(nonempty_lists(orig)));
        }
        r
    } else {
        let r: Vec<String> = Vec::new();
        proof {
            assert(r.deep_view() =~= cart_join(nonempty_lists(orig)));
        }
        r
    }
}

} // verus!
