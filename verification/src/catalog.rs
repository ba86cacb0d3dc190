//! The type-catalog listings of the resource and asset panels: filter the
//! registered types by capability tag and present them alphabetically by
//! short name, ties broken by registration order.

use vstd::prelude::*;

verus! {

/// One record of the host's type registry: a registered inspectable type,
/// optionally tagged resource-like or asset-like.  Short names are carried
/// as UTF-8 bytes.
pub struct TypeRegistration {
    pub type_id: u64,
    pub short_name: Vec<u8>,
    pub is_resource: bool,
    pub is_asset: bool,
}

/// One row of a listing panel: the registered type it stands for and the
/// position `order` the type had in the registry.
pub struct ListedType {
    pub type_id: u64,
    pub short_name: Vec<u8>,
    pub order: usize,
}

/// Lexicographic byte order on short names: the usual dictionary order,
/// where a proper prefix comes first.
pub open spec fn lex_le(a: Seq<u8>, b: Seq<u8>) -> bool
    decreases a.len(),
{
    if a.len() == 0 {
        true
    } else if b.len() == 0 {
        false
    } else if a[0] < b[0] {
        true
    } else if a[0] > b[0] {
        false
    } else {
        lex_le(a.drop_first(), b.drop_first())
    }
}

pub proof fn lemma_lex_le_refl(a: Seq<u8>)
    ensures
        lex_le(a, a),
    decreases a.len(),
{
    if a.len() > 0 {
        lemma_lex_le_refl(a.drop_first());
    }
}

/// Any two names are ordered one way or the other.
pub proof fn lemma_lex_le_total(a: Seq<u8>, b: Seq<u8>)
    ensures
        lex_le(a, b) || lex_le(b, a),
    decreases a.len(),
{
    if a.len() > 0 && b.len() > 0 && a[0] == b[0] {
        lemma_lex_le_total(a.drop_first(), b.drop_first());
    }
}

pub proof fn lemma_lex_le_trans(a: Seq<u8>, b: Seq<u8>, c: Seq<u8>)
    requires
        lex_le(a, b),
        lex_le(b, c),
    ensures
        lex_le(a, c),
    decreases a.len(),
{
    if a.len() > 0 && b.len() > 0 && c.len() > 0 && a[0] == b[0] && b[0] == c[0] {
        lemma_lex_le_trans(a.drop_first(), b.drop_first(), c.drop_first());
    }
}

pub proof fn lemma_lex_le_antisymmetric(a: Seq<u8>, b: Seq<u8>)
    requires
        lex_le(a, b),
        lex_le(b, a),
    ensures
        a =~= b,
    decreases a.len(),
{
    if a.len() > 0 && b.len() > 0 && a[0] == b[0] {
        lemma_lex_le_antisymmetric(a.drop_first(), b.drop_first());
        assert(a =~= seq![a[0]] + a.drop_first());
        assert(b =~= seq![b[0]] + b.drop_first());
    }
}

/// Executable form of [`lex_le`].
pub fn lex_le_bytes(a: &Vec<u8>, b: &Vec<u8>) -> (r: bool)
    ensures
        r == lex_le(a@, b@),
{
    let mut i: usize = 0;
    proof {
        assert(a@.skip(0) =~= a@);
        assert(b@.skip(0) =~= b@);
    }
    while i < a.len() && i < b.len()
        invariant
            0 <= i <= a@.len(),
            0 <= i <= b@.len(),
            lex_le(a@, b@) == lex_le(a@.skip(i as int), b@.skip(i as int)),
        decreases a@.len() - i,
    {
        if a[i] < b[i] {
            return true;
        }
        if a[i] > b[i] {
            return false;
        }
        proof {
            assert(a@.skip(i as int).drop_first() =~= a@.skip(i + 1));
            assert(b@.skip(i as int).drop_first() =~= b@.skip(i + 1));
        }
        i = i + 1;
    }
    a.len() <= b.len()
}

/// Whether a registration is picked by the listing: the resource panel lists
/// resource-like types, the asset panel asset-like types.
pub open spec fn picked(reg: TypeRegistration, assets: bool) -> bool {
    if assets {
        reg.is_asset
    } else {
        reg.is_resource
    }
}

/// The row at `r` reproduces the registration it points back to.
pub open spec fn row_matches(rows: Seq<ListedType>, r: int, registry: Seq<TypeRegistration>) -> bool {
    rows[r].order < registry.len() && rows[r].type_id == registry[rows[r].order as int].type_id
        && rows[r].short_name@ =~= registry[rows[r].order as int].short_name@
}

/// The full contract of a listing: `rows` holds exactly the picked
/// registrations, each exactly once (witnessed by the pairwise-distinct
/// `order` fields), alphabetically by short name, ties in registration
/// order.  These clauses pin the listing down completely: for a given
/// registry exactly one row sequence satisfies them.
pub open spec fn listing_ok(rows: Seq<ListedType>, registry: Seq<TypeRegistration>, assets: bool) -> bool {
    &&& forall|r: int|
        0 <= r < rows.len() ==> #[trigger] row_matches(rows, r, registry) && picked(
            registry[rows[r].order as int],
            assets,
        )
    &&& forall|j: int|
        0 <= j < registry.len() && picked(#[trigger] registry[j], assets) ==> exists|r: int|
            0 <= r < rows.len() && #[trigger] rows[r].order == j
    &&& forall|r1: int, r2: int| 0 <= r1 < r2 < rows.len() ==> rows[r1].order != rows[r2].order
    &&& forall|r1: int, r2: int|
        0 <= r1 < r2 < rows.len() ==> lex_le(#[trigger] rows[r1].short_name@, #[trigger] rows[r2].short_name@)
    &&& forall|r1: int, r2: int|
        0 <= r1 < r2 < rows.len() && rows[r1].short_name@ =~= rows[r2].short_name@
            ==> rows[r1].order < rows[r2].order
}

/// Filter the registry down to the picked registrations, keeping
/// registration order.
fn filter_registry(registry: &Vec<TypeRegistration>, assets: bool) -> (out: Vec<ListedType>)
    ensures
        forall|r: int|
            0 <= r < out@.len() ==> #[trigger] row_matches(out@, r, registry@) && picked(
                registry@[out@[r].order as int],
                assets,
            ),
        forall|j: int|
            0 <= j < registry@.len() && picked(#[trigger] registry@[j], assets) ==> exists|r: int|
                0 <= r < out@.len() && #[trigger] out@[r].order == j,
        forall|r1: int, r2: int| 0 <= r1 < r2 < out@.len() ==> out@[r1].order < out@[r2].order,
{
    let mut out: Vec<ListedType> = Vec::new();
    let mut j: usize = 0;
    while j < registry.len()
        invariant
            0 <= j <= registry@.len(),
            forall|r: int|
                0 <= r < out@.len() ==> #[trigger] row_matches(out@, r, registry@) && picked(
                    registry@[out@[r].order as int],
                    assets,
                ),
            forall|k: int|
                0 <= k < j && picked(#[trigger] registry@[k], assets) ==> exists|r: int|
                    0 <= r < out@.len() && #[trigger] out@[r].order == k,
            forall|r1: int, r2: int| 0 <= r1 < r2 < out@.len() ==> out@[r1].order < out@[r2].order,
            forall|r: int| 0 <= r < out@.len() ==> out@[r].order < j,
        decreases registry@.len() - j,
    {
        let reg = &registry[j];
        let keep = if assets {
            reg.is_asset
        } else {
            reg.is_resource
        };
        if keep {
            let mut name: Vec<u8> = Vec::new();
            let mut b: usize = 0;
            while b < reg.short_name.len()
                invariant
                    0 <= b <= reg.short_name@.len(),
                    name@ =~= reg.short_name@.subrange(0, b as int),
                    reg == &registry@[j as int],
                    j < registry@.len(),
                decreases reg.short_name@.len() - b,
            {
                name.push(reg.short_name[b]);
                b = b + 1;
            }
            proof {
                assert(reg.short_name@.subrange(0, reg.short_name@.len() as int)
                    =~= reg.short_name@);
            }
            let ghost out_before: Seq<ListedType> = out@;
            out.push(ListedType { type_id: reg.type_id, short_name: name, order: j });
            proof {
                let n = out_before.len() as int;
                assert(row_matches(out@, n, registry@));
                assert forall|r: int| 0 <= r < n implies #[trigger] row_matches(out@, r, registry@)
                    && picked(registry@[out@[r].order as int], assets) by {
                    assert(out@[r] == out_before[r]);
                    assert(row_matches(out_before, r, registry@));
                }
                assert forall|k: int|
                    0 <= k < j + 1 && picked(#[trigger] registry@[k], assets) implies exists|r: int|
                    0 <= r < out@.len() && #[trigger] out@[r].order == k by {
                    if k == j {
                        assert(out@[n].order == k);
                    } else {
                        let r = choose|r: int|
                            0 <= r < out_before.len() && #[trigger] out_before[r].order == k;
                        assert(out@[r].order == k);
                    }
                }
            }
        }
        j = j + 1;
    }
    out
}

/// Stable insertion sort of listing rows by short name; `order` fields are
/// assumed strictly increasing on the way in (registration order), and ties
/// keep that order.
fn sort_rows(rows: Vec<ListedType>) -> (out: Vec<ListedType>)
    requires
        forall|i: int, j: int| 0 <= i < j < rows@.len() ==> rows@[i].order < rows@[j].order,
    ensures
        out@.len() == rows@.len(),
        out@.to_multiset() =~= rows@.to_multiset(),
        forall|r1: int, r2: int|
            0 <= r1 < r2 < out@.len() ==> lex_le(
                #[trigger] out@[r1].short_name@,
                #[trigger] out@[r2].short_name@,
            ),
        forall|r1: int, r2: int|
            0 <= r1 < r2 < out@.len() && out@[r1].short_name@ =~= out@[r2].short_name@
                ==> out@[r1].order < out@[r2].order,
        forall|r1: int, r2: int| 0 <= r1 < r2 < out@.len() ==> out@[r1].order != out@[r2].order,
{
    let mut rest = rows;
    let mut out: Vec<ListedType> = Vec::new();
    let ghost all: Seq<ListedType> = rest@;
    let ghost mut placed: int = 0;
    proof {
        assert(all.take(0) =~= out@);
    }
    while rest.len() > 0
        invariant
            all =~= rows@,
            placed == all.len() - rest@.len(),
            0 <= placed <= all.len(),
            rest@ =~= all.skip(placed),
            forall|i1: int, j1: int| 0 <= i1 < j1 < all.len() ==> all[i1].order < all[j1].order,
            out@.len() == placed,
            out@.to_multiset() =~= all.take(placed).to_multiset(),
            forall|r1: int, r2: int|
                0 <= r1 < r2 < out@.len() ==> lex_le(
                    #[trigger] out@[r1].short_name@,
                    #[trigger] out@[r2].short_name@,
                ),
            forall|r1: int, r2: int|
                0 <= r1 < r2 < out@.len() && out@[r1].short_name@ =~= out@[r2].short_name@
                    ==> out@[r1].order < out@[r2].order,
            forall|r1: int, r2: int|
                0 <= r1 < r2 < out@.len() ==> out@[r1].order != out@[r2].order,
        decreases rest@.len(),
    {
        let ghost rest_before: Seq<ListedType> = rest@;
        let e = rest.remove(0);
        proof {
            assert(e == all[placed]);
            assert(rest@ =~= all.skip(placed + 1)) by {
                assert(rest@ =~= rest_before.remove(0));
                assert(rest_before.remove(0) =~= all.skip(placed + 1));
            }
            // every element already placed comes from an earlier registry
            // position, so its order is smaller
            broadcast use vstd::seq_lib::group_to_multiset_ensures;

            assert forall|r: int| 0 <= r < out@.len() implies out@[r].order < e.order by {
                assert(out@.contains(out@[r]));
                assert(all.take(placed).to_multiset().contains(out@[r]));
                assert(all.take(placed).contains(out@[r]));
                let j = choose|j: int|
                    0 <= j < all.take(placed).len() && all.take(placed)[j] == out@[r];
                assert(all[j].order < all[placed].order);
            }
        }
        // walk back from the end over the rows whose name is strictly
        // greater than the incoming one
        let mut k: usize = out.len();
        while k > 0 && !lex_le_bytes(&out[k - 1].short_name, &e.short_name)
            invariant
                0 <= k <= out@.len(),
                forall|m: int|
                    k <= m < out@.len() ==> !lex_le(
                        #[trigger] out@[m].short_name@,
                        e.short_name@,
                    ),
            decreases k,
        {
            k = k - 1;
        }
        proof {
            assert forall|m: int| k <= m < out@.len() implies lex_le(
                e.short_name@,
                #[trigger] out@[m].short_name@,
            ) && !(out@[m].short_name@ =~= e.short_name@) by {
                lemma_lex_le_total(out@[m].short_name@, e.short_name@);
                if out@[m].short_name@ =~= e.short_name@ {
                    lemma_lex_le_refl(e.short_name@);
                }
            }
            assert forall|m: int| 0 <= m < k implies lex_le(
                #[trigger] out@[m].short_name@,
                e.short_name@,
            ) by {
                if k > 0 {
                    if m < k - 1 {
                        lemma_lex_le_trans(
                            out@[m].short_name@,
                            out@[k - 1].short_name@,
                            e.short_name@,
                        );
                    }
                }
            }
            out@.insert_ensures(k as int, e);
        }
        let ghost out_before: Seq<ListedType> = out@;
        out.insert(k, e);
        proof {
            broadcast use vstd::seq_lib::group_to_multiset_ensures;

            assert(out@.remove(k as int) =~= out_before);
            assert(out@[k as int] == e);
            assert(out@.to_multiset().remove(e) =~= out_before.to_multiset());
            assert(out@.contains(e));
            assert(out@.to_multiset() =~= out_before.to_multiset().insert(e)) by {
                assert(out@.to_multiset().count(e) > 0);
                assert forall|x: ListedType|
                    out@.to_multiset().count(x) == #[trigger] out_before.to_multiset().insert(
                        e,
                    ).count(x) by {
                    if x == e {
                        assert(out@.to_multiset().remove(e).count(e) == out@.to_multiset().count(
                            e,
                        ) - 1);
                    } else {
                        assert(out@.to_multiset().remove(e).count(x) == out@.to_multiset().count(
                            x,
                        ));
                    }
                }
            }
            assert(all.take(placed + 1) =~= all.take(placed).push(e));
            assert(all.take(placed + 1).to_multiset() =~= all.take(placed).to_multiset().insert(
                e,
            ));
            placed = placed + 1;
        }
    }
    proof {
        assert(all.take(all.len() as int) =~= all);
    }
    out
}

/// The resource panel's listing: every resource-like registration exactly
/// once, alphabetical by short name, ties in registration order.
pub fn resource_rows(registry: &Vec<TypeRegistration>) -> (rows: Vec<ListedType>)
    ensures
        listing_ok(rows@, registry@, false),
{
    let filtered = filter_registry(registry, false);
    let rows = sort_rows(filtered);
    proof {
        lemma_listing_from_sort(rows@, filtered@, registry@, false);
    }
    rows
}

/// The asset panel's listing: every asset-like registration exactly once,
/// alphabetical by short name, ties in registration order.
pub fn asset_rows(registry: &Vec<TypeRegistration>) -> (rows: Vec<ListedType>)
    ensures
        listing_ok(rows@, registry@, true),
{
    let filtered = filter_registry(registry, true);
    let rows = sort_rows(filtered);
    proof {
        lemma_listing_from_sort(rows@, filtered@, registry@, true);
    }
    rows
}

/// Carry the filter contract through the permutation the sort performed.
proof fn lemma_listing_from_sort(
    rows: Seq<ListedType>,
    filtered: Seq<ListedType>,
    registry: Seq<TypeRegistration>,
    assets: bool,
)
    requires
        forall|r: int|
            0 <= r < filtered.len() ==> #[trigger] row_matches(filtered, r, registry) && picked(
                registry[filtered[r].order as int],
                assets,
            ),
        forall|j: int|
            0 <= j < registry.len() && picked(#[trigger] registry[j], assets) ==> exists|r: int|
                0 <= r < filtered.len() && #[trigger] filtered[r].order == j,
        rows.len() == filtered.len(),
        rows.to_multiset() =~= filtered.to_multiset(),
        forall|r1: int, r2: int|
            0 <= r1 < r2 < rows.len() ==> lex_le(
                #[trigger] rows[r1].short_name@,
                #[trigger] rows[r2].short_name@,
            ),
        forall|r1: int, r2: int|
            0 <= r1 < r2 < rows.len() && rows[r1].short_name@ =~= rows[r2].short_name@
                ==> rows[r1].order < rows[r2].order,
        forall|r1: int, r2: int| 0 <= r1 < r2 < rows.len() ==> rows[r1].order != rows[r2].order,
    ensures
        listing_ok(rows, registry, assets),
{
    broadcast use vstd::seq_lib::group_to_multiset_ensures;

    assert forall|r: int| 0 <= r < rows.len() implies #[trigger] row_matches(rows, r, registry)
        && picked(registry[rows[r].order as int], assets) by {
        assert(rows.contains(rows[r]));
        assert(filtered.to_multiset().contains(rows[r]));
        assert(filtered.contains(rows[r]));
        let i = choose|i: int| 0 <= i < filtered.len() && filtered[i] == rows[r];
        assert(row_matches(filtered, i, registry));
    }
    assert forall|j: int|
        0 <= j < registry.len() && picked(#[trigger] registry[j], assets) implies exists|r: int|
        0 <= r < rows.len() && #[trigger] rows[r].order == j by {
        let fr = choose|fr: int| 0 <= fr < filtered.len() && #[trigger] filtered[fr].order == j;
        assert(filtered.contains(filtered[fr]));
        assert(rows.to_multiset().contains(filtered[fr]));
        assert(rows.contains(filtered[fr]));
        let r = choose|r: int| 0 <= r < rows.len() && rows[r] == filtered[fr];
        assert(rows[r].order == j);
    }
}


/// Copy a short name.
pub fn copy_bytes(v: &Vec<u8>) -> (r: Vec<u8>)
    ensures
        r@ =~= v@,
{
    let mut r: Vec<u8> = Vec::new();
    let mut i: usize = 0;
    while i < v.len()
        invariant
            0 <= i <= v@.len(),
            r@ =~= v@.subrange(0, i as int),
        decreases v@.len() - i,
    {
        r.push(v[i]);
        i = i + 1;
    }
    proof {
        assert(v@.subrange(0, v@.len() as int) =~= v@);
    }
    r
}

/// Sort instance ids ascending; the result holds exactly the given ids.
pub fn sort_ids(ids: &Vec<u64>) -> (out: Vec<u64>)
    ensures
        out@.len() == ids@.len(),
        out@.to_multiset() =~= ids@.to_multiset(),
        forall|i: int, j: int| 0 <= i < j < out@.len() ==> out@[i] <= out@[j],
{
    broadcast use vstd::seq_lib::group_to_multiset_ensures;

    let mut out: Vec<u64> = Vec::new();
    let mut i: usize = 0;
    proof {
        assert(ids@.subrange(0, 0) =~= out@);
    }
    while i < ids.len()
        invariant
            0 <= i <= ids@.len(),
            out@.len() == i,
            out@.to_multiset() =~= ids@.subrange(0, i as int).to_multiset(),
            forall|i1: int, j1: int| 0 <= i1 < j1 < out@.len() ==> out@[i1] <= out@[j1],
        decreases ids@.len() - i,
    {
        let e = ids[i];
        let mut k: usize = out.len();
        while k > 0 && out[k - 1] > e
            invariant
                0 <= k <= out@.len(),
                forall|m: int| k <= m < out@.len() ==> out@[m] > e,
            decreases k,
        {
            k = k - 1;
        }
        proof {
            out@.insert_ensures(k as int, e);
        }
        let ghost out_before: Seq<u64> = out@;
        out.insert(k, e);
        proof {
            broadcast use vstd::seq_lib::group_to_multiset_ensures;

            assert(out@.remove(k as int) =~= out_before);
            assert(out@.to_multiset().remove(e) =~= out_before.to_multiset());
            assert(out@.contains(e));
            assert(out@.to_multiset() =~= out_before.to_multiset().insert(e)) by {
                assert forall|x: u64|
                    out@.to_multiset().count(x) == #[trigger] out_before.to_multiset().insert(
                        e,
                    ).count(x) by {
                    if x == e {
                        assert(out@.to_multiset().remove(e).count(e) == out@.to_multiset().count(e)
                            - 1);
                    } else {
                        assert(out@.to_multiset().remove(e).count(x) == out@.to_multiset().count(
                            x,
                        ));
                    }
                }
            }
            assert(ids@.subrange(0, i + 1) =~= ids@.subrange(0, i as int).push(e));
            assert(ids@.subrange(0, i + 1).to_multiset() =~= ids@.subrange(
                0,
                i as int,
            ).to_multiset().insert(e));
        }
        i = i + 1;
    }
    proof {
        assert(ids@.subrange(0, ids@.len() as int) =~= ids@);
    }
    out
}


/// Positions up to `r` of two listings of the same registry carry the same
/// registry positions.
proof fn lemma_orders_agree_upto(
    rows1: Seq<ListedType>,
    rows2: Seq<ListedType>,
    registry: Seq<TypeRegistration>,
    assets: bool,
    r: int,
)
    requires
        listing_ok(rows1, registry, assets),
        listing_ok(rows2, registry, assets),
        0 <= r < rows1.len(),
        r < rows2.len(),
    ensures
        forall|k: int| 0 <= k <= r ==> #[trigger] rows1[k].order == rows2[k].order,
    decreases r,
{
    if r > 0 {
        lemma_orders_agree_upto(rows1, rows2, registry, assets, r - 1);
    }
    assert(row_matches(rows1, r, registry));
    assert(row_matches(rows2, r, registry));
    let o1 = rows1[r].order;
    let o2 = rows2[r].order;
    assert(picked(registry[o1 as int], assets));
    assert(picked(registry[o2 as int], assets));
    let r2 = choose|rr: int| 0 <= rr < rows2.len() && #[trigger] rows2[rr].order == o1;
    let p1 = choose|rr: int| 0 <= rr < rows1.len() && #[trigger] rows1[rr].order == o2;
    // the row carrying o1 cannot sit before position r in the other listing:
    // the earlier positions already agree and orders never repeat
    assert(r2 >= r) by {
        if r2 < r {
            assert(rows1[r2].order == rows2[r2].order);
        }
    }
    assert(p1 >= r) by {
        if p1 < r {
            assert(rows1[p1].order == rows2[p1].order);
        }
    }
    if r2 != r && p1 != r {
        // both listings would order the same two names both ways
        assert(row_matches(rows1, p1, registry));
        assert(row_matches(rows2, r2, registry));
        assert(rows1[p1].short_name@ =~= rows2[r].short_name@);
        assert(rows2[r2].short_name@ =~= rows1[r].short_name@);
        assert(lex_le(rows1[r].short_name@, rows1[p1].short_name@));
        assert(lex_le(rows2[r].short_name@, rows2[r2].short_name@));
        lemma_lex_le_antisymmetric(rows1[r].short_name@, rows2[r].short_name@);
        assert(rows1[r].short_name@ =~= rows1[p1].short_name@);
        assert(rows1[r].order < rows1[p1].order);
        assert(rows2[r].short_name@ =~= rows2[r2].short_name@);
        assert(rows2[r].order < rows2[r2].order);
        assert(false);
    }
}

/// The listing contract pins the rows down completely: for one registry, any
/// two row sequences that satisfy it agree row by row.  The listing is
/// therefore the same however the registrations were tagged and found, and
/// the order of rows never depends on anything but the registry itself.
pub proof fn lemma_listing_unique(
    rows1: Seq<ListedType>,
    rows2: Seq<ListedType>,
    registry: Seq<TypeRegistration>,
    assets: bool,
)
    requires
        listing_ok(rows1, registry, assets),
        listing_ok(rows2, registry, assets),
    ensures
        rows1.len() == rows2.len(),
        forall|r: int|
            0 <= r < rows1.len() ==> #[trigger] rows1[r].order == rows2[r].order
                && rows1[r].type_id == rows2[r].type_id && rows1[r].short_name@ =~= rows2[
                r
            ].short_name@,
{
    assert(rows1.len() == rows2.len()) by {
        if rows1.len() < rows2.len() {
            let r = rows1.len() as int;
            if r > 0 {
                lemma_orders_agree_upto(rows1, rows2, registry, assets, r - 1);
            }
            assert(row_matches(rows2, r, registry));
            let o = rows2[r].order;
            assert(picked(registry[o as int], assets));
            let p = choose|rr: int| 0 <= rr < rows1.len() && #[trigger] rows1[rr].order == o;
            assert(rows2[p].order == rows1[p].order);
            assert(rows2[p].order == rows2[r].order);
        }
        if rows2.len() < rows1.len() {
            let r = rows2.len() as int;
            if r > 0 {
                lemma_orders_agree_upto(rows2, rows1, registry, assets, r - 1);
            }
            assert(row_matches(rows1, r, registry));
            let o = rows1[r].order;
            assert(picked(registry[o as int], assets));
            let p = choose|rr: int| 0 <= rr < rows2.len() && #[trigger] rows2[rr].order == o;
            assert(rows1[p].order == rows2[p].order);
            assert(rows1[p].order == rows1[r].order);
        }
    }
    if rows1.len() > 0 {
        lemma_orders_agree_upto(rows1, rows2, registry, assets, rows1.len() - 1);
    }
    assert forall|r: int| 0 <= r < rows1.len() implies #[trigger] rows1[r].order == rows2[r].order
        && rows1[r].type_id == rows2[r].type_id && rows1[r].short_name@ =~= rows2[
        r
    ].short_name@ by {
        assert(row_matches(rows1, r, registry));
        assert(row_matches(rows2, r, registry));
    }
}

} // verus!
