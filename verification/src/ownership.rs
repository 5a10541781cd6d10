//! The mathematical model of the ownership table: the order its records are
//! kept in, what a lookup by (user, option) pair yields, and how the
//! upsert-or-delete rule and the cascading deletes transform it.

use vstd::prelude::*;
use crate::models::OptionOwnership;

verus! {

/// Strict ordering of ownership records by (option id, then user id):
/// the deterministic order in which the ledger lists them.
pub open spec fn own_lt(a: OptionOwnership, b: OptionOwnership) -> bool {
    a.option_id < b.option_id || (a.option_id == b.option_id && a.user_id < b.user_id)
}

/// The ownership table is strictly sorted by (option id, user id); strictness
/// also makes the (user, option) pair a unique key.
pub open spec fn owns_sorted(s: Seq<OptionOwnership>) -> bool {
    forall|i: int, j: int| 0 <= i < j < s.len() ==> own_lt(s[i], s[j])
}

/// The (user, option) pair picks out at most one record.
pub open spec fn pair_unique(s: Seq<OptionOwnership>) -> bool {
    forall|i: int, j: int|
        0 <= i < s.len() && 0 <= j < s.len() && #[trigger] s[i].user_id == #[trigger] s[j].user_id
            && s[i].option_id == s[j].option_id ==> i == j
}

/// Some record for the (user, option) pair exists.
pub open spec fn has_own(s: Seq<OptionOwnership>, user_id: i64, option_id: i64) -> bool {
    exists|i: int| 0 <= i < s.len() && s[i].user_id == user_id && s[i].option_id == option_id
}

/// The quantity held for the pair: the stored quantity if a record exists,
/// 0 otherwise. Well-defined whenever the pair is a unique key.
pub open spec fn qty_of(s: Seq<OptionOwnership>, user_id: i64, option_id: i64) -> i64 {
    if has_own(s, user_id, option_id) {
        s[choose|i: int|
            0 <= i < s.len() && s[i].user_id == user_id && s[i].option_id == option_id].quantity
    } else {
        0
    }
}

/// The table after deleting the record for one pair, if present.
pub open spec fn remove_own(s: Seq<OptionOwnership>, user_id: i64, option_id: i64) -> Seq<
    OptionOwnership,
> {
    s.filter(|w: OptionOwnership| !(w.user_id == user_id && w.option_id == option_id))
}

/// The table after creating or overwriting the single record for `rec`'s
/// pair: the records ordered below it, then `rec`, then those ordered above
/// it. Any previous record for the same pair is neither below nor above and
/// so is dropped.
pub open spec fn upsert_own(s: Seq<OptionOwnership>, rec: OptionOwnership) -> Seq<
    OptionOwnership,
> {
    s.filter(|w: OptionOwnership| own_lt(w, rec)) + seq![rec] + s.filter(
        |w: OptionOwnership| own_lt(rec, w),
    )
}

/// The table after a user is deleted: every link of that user goes with it.
pub open spec fn drop_user_links(s: Seq<OptionOwnership>, user_id: i64) -> Seq<OptionOwnership> {
    s.filter(|w: OptionOwnership| w.user_id != user_id)
}

/// The table after an option is deleted: every link to that option goes with it.
pub open spec fn drop_option_links(s: Seq<OptionOwnership>, option_id: i64) -> Seq<
    OptionOwnership,
> {
    s.filter(|w: OptionOwnership| w.option_id != option_id)
}

/// Filtering a prefix one element further either appends that element or
/// leaves the filtered prefix unchanged.
pub proof fn lemma_filter_take_step<A>(s: Seq<A>, pred: spec_fn(A) -> bool, i: int)
    requires
        0 <= i < s.len(),
    ensures
        s.take(i + 1).filter(pred) == if pred(s[i]) {
            s.take(i).filter(pred).push(s[i])
        } else {
            s.take(i).filter(pred)
        },
{
    reveal(Seq::filter);
    let t = s.take(i + 1);
    assert(t.drop_last() =~= s.take(i));
    assert(t.last() == s[i]);
}

/// Every record of a filtered table comes from the table itself, and a
/// filtered sorted table is still sorted.
pub proof fn lemma_filter_keeps_order(s: Seq<OptionOwnership>, pred: spec_fn(OptionOwnership) -> bool)
    ensures
        forall|i: int|
            0 <= i < s.filter(pred).len() ==> s.contains(#[trigger] s.filter(pred)[i]),
        owns_sorted(s) ==> owns_sorted(s.filter(pred)),
    decreases s.len(),
{
    reveal(Seq::filter);
    broadcast use vstd::seq_lib::group_filter_ensures;

    if s.len() == 0 {
    } else {
        let t = s.drop_last();
        assert(forall|i: int| 0 <= i < t.len() ==> t[i] == s[i]);
        lemma_filter_keeps_order(t, pred);
        assert(forall|i: int| 0 <= i < t.filter(pred).len() ==> s.contains(
            #[trigger] t.filter(pred)[i],
        )) by {
            assert(forall|i: int|
                0 <= i < t.len() && t.contains(#[trigger] t[i]) ==> s.contains(t[i]));
            assert(forall|x: OptionOwnership| t.contains(x) ==> s.contains(x));
        }
        if pred(s.last()) {
            assert(s.filter(pred) == t.filter(pred).push(s.last()));
            assert(forall|i: int|
                0 <= i < s.filter(pred).len() ==> s.contains(#[trigger] s.filter(pred)[i]));
            if owns_sorted(s) {
                assert(owns_sorted(t));
                assert forall|i: int, j: int|
                    0 <= i < j < s.filter(pred).len() implies own_lt(
                    s.filter(pred)[i],
                    s.filter(pred)[j],
                ) by {
                    if j < s.filter(pred).len() - 1 {
                        assert(own_lt(t.filter(pred)[i], t.filter(pred)[j]));
                    } else {
                        let x = t.filter(pred)[i];
                        assert(t.contains(x));
                        let k = choose|k: int| 0 <= k < t.len() && t[k] == x;
                        assert(own_lt(s[k], s.last()));
                    }
                }
            }
        } else {
            assert(s.filter(pred) == t.filter(pred));
        }
    }
}

/// An upsert into a sorted table leaves it sorted.
pub proof fn lemma_upsert_sorted(s: Seq<OptionOwnership>, rec: OptionOwnership)
    requires
        owns_sorted(s),
    ensures
        owns_sorted(upsert_own(s, rec)),
{
    broadcast use vstd::seq_lib::group_filter_ensures;

    let below = s.filter(|w: OptionOwnership| own_lt(w, rec));
    let above = s.filter(|w: OptionOwnership| own_lt(rec, w));
    let post = upsert_own(s, rec);
    lemma_filter_keeps_order(s, |w: OptionOwnership| own_lt(w, rec));
    lemma_filter_keeps_order(s, |w: OptionOwnership| own_lt(rec, w));
    assert(post.len() == below.len() + 1 + above.len());
    assert(forall|i: int| 0 <= i < below.len() ==> post[i] == below[i]);
    assert(post[below.len() as int] == rec);
    assert(forall|i: int|
        below.len() + 1 <= i < post.len() ==> post[i] == above[i - below.len() - 1]);
    assert forall|i: int, j: int| 0 <= i < j < post.len() implies own_lt(post[i], post[j]) by {
        if j <= below.len() {
            assert(i < below.len());
            assert(own_lt(below[i], rec));
        }
        if i >= below.len() {
            if i > below.len() {
                assert(own_lt(rec, above[i - below.len() - 1]));
                assert(own_lt(above[i - below.len() - 1], above[j - below.len() - 1]));
            } else {
                assert(own_lt(rec, above[j - below.len() - 1]));
            }
        }
        if i < below.len() && j > below.len() {
            assert(own_lt(below[i], rec));
            assert(own_lt(rec, above[j - below.len() - 1]));
        }
    }
}

/// What an upsert does to every lookup: the upserted pair now yields the
/// new quantity, and every other pair is untouched.
pub proof fn lemma_upsert_qty(s: Seq<OptionOwnership>, rec: OptionOwnership, a: i64, b: i64)
    requires
        owns_sorted(s),
    ensures
        has_own(upsert_own(s, rec), rec.user_id, rec.option_id),
        qty_of(upsert_own(s, rec), rec.user_id, rec.option_id) == rec.quantity,
        !(a == rec.user_id && b == rec.option_id) ==> has_own(upsert_own(s, rec), a, b)
            == has_own(s, a, b) && qty_of(upsert_own(s, rec), a, b) == qty_of(s, a, b),
{
    broadcast use vstd::seq_lib::group_filter_ensures;

    let below = s.filter(|w: OptionOwnership| own_lt(w, rec));
    let above = s.filter(|w: OptionOwnership| own_lt(rec, w));
    let post = upsert_own(s, rec);
    lemma_filter_keeps_order(s, |w: OptionOwnership| own_lt(w, rec));
    lemma_filter_keeps_order(s, |w: OptionOwnership| own_lt(rec, w));
    lemma_sorted_pair_unique(s);
    assert(post.len() == below.len() + 1 + above.len());
    assert(forall|i: int| 0 <= i < below.len() ==> post[i] == below[i]);
    assert(post[below.len() as int] == rec);
    assert(forall|i: int|
        below.len() + 1 <= i < post.len() ==> post[i] == above[i - below.len() - 1]);
    // Any record of the new table other than `rec` itself comes from `s`.
    assert forall|k: int| 0 <= k < post.len() && k != below.len() implies s.contains(post[k]) by {
        if k < below.len() {
            assert(post[k] == below[k]);
        } else {
            assert(post[k] == above[k - below.len() - 1]);
        }
    }
    // No record of the new table besides `rec` carries `rec`'s pair.
    assert forall|k: int|
        0 <= k < post.len() && post[k].user_id == rec.user_id && post[k].option_id
            == rec.option_id implies k == below.len() by {
        if k < below.len() {
            assert(own_lt(below[k], rec));
        } else if k > below.len() {
            assert(own_lt(rec, above[k - below.len() - 1]));
        }
    }
    assert(has_own(post, rec.user_id, rec.option_id)) by {
        assert(post[below.len() as int].user_id == rec.user_id);
    }
    assert(qty_of(post, rec.user_id, rec.option_id) == rec.quantity) by {
        let k = choose|k: int|
            0 <= k < post.len() && post[k].user_id == rec.user_id && post[k].option_id
                == rec.option_id;
        assert(k == below.len());
    }
    if !(a == rec.user_id && b == rec.option_id) {
        if has_own(post, a, b) {
            let k = choose|k: int|
                0 <= k < post.len() && post[k].user_id == a && post[k].option_id == b;
            assert(k != below.len());
            assert(s.contains(post[k]));
            let k0 = choose|k0: int| 0 <= k0 < s.len() && s[k0] == post[k];
            assert(has_own(s, a, b));
            let k1 = choose|k1: int| 0 <= k1 < s.len() && s[k1].user_id == a && s[k1].option_id == b;
            assert(k1 == k0);
            assert(qty_of(s, a, b) == post[k].quantity);
        }
        if has_own(s, a, b) {
            let k0 = choose|k0: int| 0 <= k0 < s.len() && s[k0].user_id == a && s[k0].option_id == b;
            let w = s[k0];
            assert(s.contains(w));
            if own_lt(w, rec) {
                assert(below.contains(w));
                let k = choose|k: int| 0 <= k < below.len() && below[k] == w;
                assert(post[k] == w);
                assert(has_own(post, a, b));
            } else {
                assert(own_lt(rec, w));
                assert(above.contains(w));
                let k = choose|k: int| 0 <= k < above.len() && above[k] == w;
                assert(post[below.len() + 1 + k] == w);
                assert(has_own(post, a, b));
            }
        }
    }
}

/// An upsert of a positive quantity into a table of positive quantities
/// leaves only positive quantities.
pub proof fn lemma_upsert_positive(s: Seq<OptionOwnership>, rec: OptionOwnership)
    requires
        forall|i: int| 0 <= i < s.len() ==> #[trigger] s[i].quantity > 0,
        rec.quantity > 0,
    ensures
        forall|i: int|
            0 <= i < upsert_own(s, rec).len() ==> #[trigger] upsert_own(s, rec)[i].quantity > 0,
{
    let below = s.filter(|w: OptionOwnership| own_lt(w, rec));
    let above = s.filter(|w: OptionOwnership| own_lt(rec, w));
    let post = upsert_own(s, rec);
    lemma_filter_keeps_order(s, |w: OptionOwnership| own_lt(w, rec));
    lemma_filter_keeps_order(s, |w: OptionOwnership| own_lt(rec, w));
    assert forall|i: int| 0 <= i < post.len() implies #[trigger] post[i].quantity > 0 by {
        if i < below.len() {
            assert(post[i] == below[i]);
            assert(s.contains(below[i]));
            let k = choose|k: int| 0 <= k < s.len() && s[k] == below[i];
            assert(s[k].quantity > 0);
        } else if i > below.len() {
            assert(post[i] == above[i - below.len() - 1]);
            assert(s.contains(above[i - below.len() - 1]));
            let k = choose|k: int| 0 <= k < s.len() && s[k] == above[i - below.len() - 1];
            assert(s[k].quantity > 0);
        }
    }
}

/// Dropping the first record changes no lookup but the one for its own
/// pair, which afterwards finds nothing.
proof fn lemma_lookup_drop_first(s: Seq<OptionOwnership>, a: i64, b: i64)
    requires
        pair_unique(s),
        s.len() > 0,
    ensures
        !(a == s[0].user_id && b == s[0].option_id) ==> has_own(s.drop_first(), a, b) == has_own(
            s,
            a,
            b,
        ) && qty_of(s.drop_first(), a, b) == qty_of(s, a, b),
        !has_own(s.drop_first(), s[0].user_id, s[0].option_id),
{
    let rest = s.drop_first();
    assert(forall|i: int| 0 <= i < rest.len() ==> rest[i] == s[i + 1]);
    assert forall|i: int|
        0 <= i < rest.len() implies !(rest[i].user_id == s[0].user_id && rest[i].option_id
        == s[0].option_id) by {
        assert(rest[i] == s[i + 1]);
    }
    if !(a == s[0].user_id && b == s[0].option_id) {
        if has_own(s, a, b) {
            let k = choose|k: int| 0 <= k < s.len() && s[k].user_id == a && s[k].option_id == b;
            assert(k != 0);
            assert(rest[k - 1] == s[k]);
            assert(has_own(rest, a, b));
            let k2 = choose|k2: int|
                0 <= k2 < rest.len() && rest[k2].user_id == a && rest[k2].option_id == b;
            assert(rest[k2] == s[k2 + 1]);
            assert(k2 + 1 == k);
        }
        if has_own(rest, a, b) {
            let k2 = choose|k2: int|
                0 <= k2 < rest.len() && rest[k2].user_id == a && rest[k2].option_id == b;
            assert(rest[k2] == s[k2 + 1]);
            assert(has_own(s, a, b));
        }
    }
}

/// A sorted table of positive quantities is determined by its lookups: two
/// such tables that answer every pair lookup alike are the same table.
pub proof fn lemma_table_determined_by_lookups(s: Seq<OptionOwnership>, t: Seq<OptionOwnership>)
    requires
        owns_sorted(s),
        owns_sorted(t),
        forall|i: int| 0 <= i < s.len() ==> #[trigger] s[i].quantity > 0,
        forall|i: int| 0 <= i < t.len() ==> #[trigger] t[i].quantity > 0,
        forall|a: i64, b: i64| #[trigger] has_own(s, a, b) == has_own(t, a, b),
        forall|a: i64, b: i64| #[trigger] qty_of(s, a, b) == qty_of(t, a, b),
    ensures
        s == t,
    decreases s.len(),
{
    lemma_sorted_pair_unique(s);
    lemma_sorted_pair_unique(t);
    if s.len() == 0 {
        if t.len() > 0 {
            assert(has_own(t, t[0].user_id, t[0].option_id));
            assert(has_own(s, t[0].user_id, t[0].option_id));
        }
        assert(s =~= t);
    } else if t.len() == 0 {
        assert(has_own(s, s[0].user_id, s[0].option_id));
        assert(has_own(t, s[0].user_id, s[0].option_id));
    } else {
        // The two heads carry the same pair: each head's pair occurs in the
        // other table, and a strictly sorted table has its least pair first.
        let su = s[0].user_id;
        let so = s[0].option_id;
        let tu = t[0].user_id;
        let to = t[0].option_id;
        assert(has_own(s, su, so));
        assert(has_own(t, tu, to));
        assert(has_own(t, su, so));
        assert(has_own(s, tu, to));
        let k = choose|k: int| 0 <= k < t.len() && t[k].user_id == su && t[k].option_id == so;
        let m = choose|m: int| 0 <= m < s.len() && s[m].user_id == tu && s[m].option_id == to;
        if k > 0 {
            assert(own_lt(t[0], t[k]));
            assert(m > 0 ==> own_lt(s[0], s[m]));
        }
        assert(su == tu && so == to);
        assert(qty_of(s, su, so) == s[0].quantity) by {
            let i = choose|i: int| 0 <= i < s.len() && s[i].user_id == su && s[i].option_id == so;
            assert(i == 0);
        }
        assert(qty_of(t, su, so) == t[0].quantity) by {
            let i = choose|i: int| 0 <= i < t.len() && t[i].user_id == su && t[i].option_id == so;
            assert(i == 0);
        }
        assert(s[0] == t[0]);
        let s1 = s.drop_first();
        let t1 = t.drop_first();
        assert(forall|i: int| 0 <= i < s1.len() ==> s1[i] == s[i + 1]);
        assert(forall|i: int| 0 <= i < t1.len() ==> t1[i] == t[i + 1]);
        assert(owns_sorted(s1)) by {
            assert forall|i: int, j: int| 0 <= i < j < s1.len() implies own_lt(s1[i], s1[j]) by {
                assert(own_lt(s[i + 1], s[j + 1]));
            }
        }
        assert(owns_sorted(t1)) by {
            assert forall|i: int, j: int| 0 <= i < j < t1.len() implies own_lt(t1[i], t1[j]) by {
                assert(own_lt(t[i + 1], t[j + 1]));
            }
        }
        assert forall|i: int| 0 <= i < s1.len() implies #[trigger] s1[i].quantity > 0 by {
            assert(s1[i] == s[i + 1]);
        }
        assert forall|i: int| 0 <= i < t1.len() implies #[trigger] t1[i].quantity > 0 by {
            assert(t1[i] == t[i + 1]);
        }
        assert forall|a: i64, b: i64| #[trigger] has_own(s1, a, b) == has_own(t1, a, b) by {
            lemma_lookup_drop_first(s, a, b);
            lemma_lookup_drop_first(t, a, b);
            if a == su && b == so {
                assert(!has_own(s1, a, b) && !has_own(t1, a, b));
            }
        }
        assert forall|a: i64, b: i64| #[trigger] qty_of(s1, a, b) == qty_of(t1, a, b) by {
            lemma_lookup_drop_first(s, a, b);
            lemma_lookup_drop_first(t, a, b);
            if a == su && b == so {
                assert(!has_own(s1, a, b) && !has_own(t1, a, b));
                assert(qty_of(s1, a, b) == 0 && qty_of(t1, a, b) == 0);
            }
        }
        lemma_table_determined_by_lookups(s1, t1);
        assert forall|i: int| 0 <= i < s.len() implies s[i] == t[i] by {
            if i > 0 {
                assert(s1[i - 1] == s[i]);
                assert(t1[i - 1] == t[i]);
            }
        }
        assert(s =~= t);
    }
}

/// In a sorted table the (user, option) pair picks out at most one record.
pub proof fn lemma_sorted_pair_unique(s: Seq<OptionOwnership>)
    requires
        owns_sorted(s),
    ensures
        pair_unique(s),
{
    assert forall|i: int, j: int|
        0 <= i < s.len() && 0 <= j < s.len() && #[trigger] s[i].user_id == #[trigger] s[j].user_id
            && s[i].option_id == s[j].option_id implies i == j by {
        if i < j {
            assert(own_lt(s[i], s[j]));
        } else if j < i {
            assert(own_lt(s[j], s[i]));
        }
    }
}

} // verus!
