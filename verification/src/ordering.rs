//! The order in which resources are sent to a service: what a resource
//! depends on goes first (data sources before indexers, knowledge bases
//! before knowledge sources), and resources of one kind keep their order.
use vstd::prelude::*;
use vstd::seq_lib::group_filter_ensures;

use crate::diff_output::JsonValue;
use crate::json::{Json, jv, deep_copy};
use crate::resources::ResourceKind;
use crate::text::copy_str;

verus! {

broadcast use group_filter_ensures;

/// A resource to send, as plain values: kind, name, definition, flag.
pub type ItemView = (ResourceKind, Seq<char>, Json, bool);

/// The view of a resource to send.
pub open spec fn item_view(t: (ResourceKind, String, JsonValue, bool)) -> ItemView {
    (t.0, t.1@, jv(t.2), t.3)
}

/// The views of a list of resources to send.
pub open spec fn item_views(s: Seq<(ResourceKind, String, JsonValue, bool)>) -> Seq<ItemView> {
    s.map_values(|t: (ResourceKind, String, JsonValue, bool)| item_view(t))
}

/// The place of a kind in the dependency order: synonym maps, data sources,
/// indexes, aliases, skillsets, knowledge bases, indexers, knowledge
/// sources, agents; any other kind comes last.
pub open spec fn dependency_rank(k: ResourceKind) -> nat {
    match k {
        ResourceKind::SynonymMap => 0,
        ResourceKind::DataSource => 1,
        ResourceKind::Index => 2,
        ResourceKind::Alias => 3,
        ResourceKind::Skillset => 4,
        ResourceKind::KnowledgeBase => 5,
        ResourceKind::Indexer => 6,
        ResourceKind::KnowledgeSource => 7,
        ResourceKind::Agent => 8,
        _ => 9,
    }
}

/// The number of places in the dependency order.
pub open spec fn rank_count() -> nat {
    10
}

/// Whether a resource is of rank `r`.
pub open spec fn rank_is(r: nat) -> spec_fn(ItemView) -> bool {
    |x: ItemView| dependency_rank(x.0) == r
}

/// The resources of rank `r`, in their order.
pub open spec fn of_rank(s: Seq<ItemView>, r: nat) -> Seq<ItemView> {
    s.filter(rank_is(r))
}

/// The resources of rank below `r`, rank by rank.
pub open spec fn ranked_upto(s: Seq<ItemView>, r: nat) -> Seq<ItemView>
    decreases r,
{
    if r == 0 {
        Seq::empty()
    } else {
        ranked_upto(s, (r - 1) as nat) + of_rank(s, (r - 1) as nat)
    }
}

/// The resources in dependency order.
pub open spec fn ordered_spec(s: Seq<ItemView>) -> Seq<ItemView> {
    ranked_upto(s, rank_count())
}

/// The rank of a kind, as a number.
fn rank_of(k: ResourceKind) -> (r: usize)
    ensures
        r == dependency_rank(k),
{
    match k {
        ResourceKind::SynonymMap => 0,
        ResourceKind::DataSource => 1,
        ResourceKind::Index => 2,
        ResourceKind::Alias => 3,
        ResourceKind::Skillset => 4,
        ResourceKind::KnowledgeBase => 5,
        ResourceKind::Indexer => 6,
        ResourceKind::KnowledgeSource => 7,
        ResourceKind::Agent => 8,
        _ => 9,
    }
}

/// Order resources by dependencies (data sources before indexers, and so
/// on); resources of the same kind keep their relative order.
pub fn order_by_dependencies(
    resources: &[(ResourceKind, String, JsonValue, bool)],
) -> (out: Vec<(ResourceKind, String, JsonValue, bool)>)
    ensures
        item_views(out@) == ordered_spec(item_views(resources@)),
{
    let ghost s = item_views(resources@);
    let mut out: Vec<(ResourceKind, String, JsonValue, bool)> = Vec::new();
    let mut r: usize = 0;
    while r < 10
        invariant
            r <= 10,
            s == item_views(resources@),
            item_views(out@) == ranked_upto(s, r as nat),
        decreases 10 - r,
    {
        let ghost base = item_views(out@);
        let mut i: usize = 0;
        while i < resources.len()
            invariant
                i <= resources@.len(),
                s == item_views(resources@),
                item_views(out@) == base + of_rank(s.take(i as int), r as nat),
            decreases resources@.len() - i,
        {
            let ghost before = out@;
            assert(s.take(i + 1) =~= s.take(i as int).push(s[i as int]));
            proof {
                s.take(i as int).lemma_filter_push(s[i as int], rank_is(r as nat));
            }
            let t = &resources[i];
            if rank_of(t.0) == r {
                let copy = (t.0, copy_str(t.1.as_str()), deep_copy(&t.2), t.3);
                out.push(copy);
                assert(item_views(out@) =~= item_views(before).push(s[i as int]));
            }
            i = i + 1;
        }
        assert(s.take(resources@.len() as int) =~= s);
        r = r + 1;
    }
    out
}

// ---------------------------------------------------------------------------
// Laws
// ---------------------------------------------------------------------------

/// Filtering twice by one rank is filtering once.
proof fn lemma_of_rank_twice(s: Seq<ItemView>, r: nat, q: nat)
    ensures
        of_rank(of_rank(s, q), r) == if r == q { of_rank(s, q) } else { Seq::<ItemView>::empty() },
    decreases s.len(),
{
    if s.len() > 0 {
        let init = s.drop_last();
        lemma_of_rank_twice(init, r, q);
        assert(s =~= init.push(s.last()));
        init.lemma_filter_push(s.last(), rank_is(q));
        of_rank(init, q).lemma_filter_push(s.last(), rank_is(r));
    } else {
        assert(of_rank(s, q) =~= s) by {
            reveal(Seq::filter);
        }
        assert(of_rank(of_rank(s, q), r) =~= s) by {
            reveal(Seq::filter);
        }
    }
}

/// Everything of rank below `r` is sorted by rank, and below `r`.
proof fn lemma_ranked_upto_sorted(s: Seq<ItemView>, r: nat)
    ensures
        forall|i: int| 0 <= i < ranked_upto(s, r).len() ==> dependency_rank(
            (#[trigger] ranked_upto(s, r)[i]).0,
        ) < r,
        forall|i: int, j: int|
            0 <= i < j < ranked_upto(s, r).len() ==> dependency_rank((#[trigger] ranked_upto(s, r)[i]).0)
                <= dependency_rank((#[trigger] ranked_upto(s, r)[j]).0),
    decreases r,
{
    if r > 0 {
        let q = (r - 1) as nat;
        lemma_ranked_upto_sorted(s, q);
        let a = ranked_upto(s, q);
        let f = of_rank(s, q);
        assert(ranked_upto(s, r) == a + f);
        assert forall|i: int| 0 <= i < f.len() implies dependency_rank((#[trigger] f[i]).0) == q by {
            s.lemma_filter_pred(rank_is(q), i);
        }
        assert forall|i: int| 0 <= i < (a + f).len() implies dependency_rank((#[trigger] (a + f)[i]).0) < r by {
            if i >= a.len() {
                assert((a + f)[i] == f[i - a.len()]);
            }
        }
        assert forall|i: int, j: int| 0 <= i < j < (a + f).len() implies dependency_rank(
            (#[trigger] (a + f)[i]).0,
        ) <= dependency_rank((#[trigger] (a + f)[j]).0) by {
            if j >= a.len() {
                assert((a + f)[j] == f[j - a.len()]);
                if i >= a.len() {
                    assert((a + f)[i] == f[i - a.len()]);
                }
            }
        }
    }
}

/// The resources of rank `r` among those of rank below `upto`.
proof fn lemma_ranked_upto_of_rank(s: Seq<ItemView>, upto: nat, r: nat)
    ensures
        of_rank(ranked_upto(s, upto), r) == if r < upto { of_rank(s, r) } else { Seq::<ItemView>::empty() },
    decreases upto,
{
    if upto == 0 {
        assert(of_rank(Seq::<ItemView>::empty(), r) =~= Seq::<ItemView>::empty()) by {
            reveal(Seq::filter);
        }
    } else {
        let q = (upto - 1) as nat;
        lemma_ranked_upto_of_rank(s, q, r);
        Seq::filter_distributes_over_add(ranked_upto(s, q), of_rank(s, q), rank_is(r));
        lemma_of_rank_twice(s, r, q);
        if r < q {
            assert(of_rank(s, r) + Seq::<ItemView>::empty() =~= of_rank(s, r));
        } else if r == q {
            assert(Seq::<ItemView>::empty() + of_rank(s, r) =~= of_rank(s, r));
        } else {
            assert(Seq::<ItemView>::empty() + Seq::<ItemView>::empty() =~= Seq::<ItemView>::empty());
        }
    }
}

/// Dependency order is sorted by rank: nothing comes before a resource it
/// may depend on.
pub proof fn law_dependencies_first(s: Seq<ItemView>)
    ensures
        forall|i: int, j: int|
            0 <= i < j < ordered_spec(s).len() ==> dependency_rank((#[trigger] ordered_spec(s)[i]).0)
                <= dependency_rank((#[trigger] ordered_spec(s)[j]).0),
{
    lemma_ranked_upto_sorted(s, rank_count());
}

/// Dependency order is stable: the resources of each rank are exactly the
/// input's resources of that rank, in their input order.
pub proof fn law_order_is_stable(s: Seq<ItemView>, r: nat)
    requires
        r < rank_count(),
    ensures
        of_rank(ordered_spec(s), r) == of_rank(s, r),
{
    lemma_ranked_upto_of_rank(s, rank_count(), r);
}

} // verus!
