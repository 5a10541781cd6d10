//! The behavioural laws of the ledger, proved from the operations'
//! contracts: what creation, the upsert-or-delete rule and the cascading
//! deletes guarantee across calls.

use vstd::prelude::*;
use crate::models::{OptionOwnership, User};
use crate::ownership::{
    drop_user_links, has_own, lemma_sorted_pair_unique, lemma_table_determined_by_lookups,
    lemma_upsert_positive, lemma_upsert_qty, lemma_upsert_sorted, owns_sorted, pair_unique, qty_of,
    remove_own, upsert_own,
};
use crate::store::{name_taken, Ledger};

verus! {

/// Law: after a successful user creation the user list holds exactly one
/// user with the new name, and its id is one no existing user carries.
/// The hypotheses are what `create_user` ensures on success.
pub proof fn lemma_created_user_listed_once(pre: Ledger, post: Ledger, u: User)
    requires
        pre.wf(),
        u.id == pre.next_user_id,
        !name_taken(pre.users@, u.name@),
        post.users@ == pre.users@.push(u),
    ensures
        exists|i: int| 0 <= i < post.users@.len() && #[trigger] post.users@[i].name@ == u.name@,
        forall|i: int, j: int|
            0 <= i < post.users@.len() && 0 <= j < post.users@.len()
                && #[trigger] post.users@[i].name@ == u.name@ && #[trigger] post.users@[j].name@
                == u.name@ ==> i == j,
        forall|i: int| 0 <= i < pre.users@.len() ==> #[trigger] pre.users@[i].id != u.id,
{
    let n = pre.users@.len() as int;
    assert(post.users@[n].name@ == u.name@);
    assert(forall|k: int| 0 <= k < n ==> post.users@[k] == pre.users@[k]);
    assert forall|i: int, j: int|
        0 <= i < post.users@.len() && 0 <= j < post.users@.len()
            && #[trigger] post.users@[i].name@ == u.name@ && #[trigger] post.users@[j].name@
            == u.name@ implies i == j by {
        if i < n && j < n {
            assert(pre.users@[i].name@ == pre.users@[j].name@);
        } else if i < n {
            assert(name_taken(pre.users@, u.name@)) by {
                assert(pre.users@[i].name@ == u.name@);
            }
        } else if j < n {
            assert(name_taken(pre.users@, u.name@)) by {
                assert(pre.users@[j].name@ == u.name@);
            }
        }
    }
}

/// Law: setting a non-positive quantity leaves no record for the pair,
/// whatever the prior state held — the idempotent delete.
pub proof fn lemma_nonpositive_set_clears_pair(
    s: Seq<OptionOwnership>,
    user_id: i64,
    option_id: i64,
)
    ensures
        !has_own(remove_own(s, user_id, option_id), user_id, option_id),
        qty_of(remove_own(s, user_id, option_id), user_id, option_id) == 0,
{
    broadcast use vstd::seq_lib::group_filter_ensures;

}

/// Law: two successive upserts for the same pair leave exactly one record
/// for it, holding the later quantity — overwrite, not accumulation.
pub proof fn lemma_second_set_overwrites(
    s: Seq<OptionOwnership>,
    user_id: i64,
    option_id: i64,
    q1: i64,
    q2: i64,
)
    requires
        owns_sorted(s),
    ensures
        ({
            let twice = upsert_own(
                upsert_own(s, OptionOwnership { user_id, option_id, quantity: q1 }),
                OptionOwnership { user_id, option_id, quantity: q2 },
            );
            &&& has_own(twice, user_id, option_id)
            &&& qty_of(twice, user_id, option_id) == q2
            &&& pair_unique(twice)
        }),
{
    let rec1 = OptionOwnership { user_id, option_id, quantity: q1 };
    let rec2 = OptionOwnership { user_id, option_id, quantity: q2 };
    let once = upsert_own(s, rec1);
    lemma_upsert_sorted(s, rec1);
    lemma_upsert_qty(once, rec2, user_id, option_id);
    lemma_upsert_sorted(once, rec2);
    lemma_sorted_pair_unique(upsert_own(once, rec2));
}

/// Law: deleting a user removes every ownership record referencing it: the
/// listing afterwards contains none with that user id.
pub proof fn lemma_user_delete_cascades(s: Seq<OptionOwnership>, user_id: i64)
    ensures
        forall|i: int|
            0 <= i < drop_user_links(s, user_id).len() ==> #[trigger] drop_user_links(
                s,
                user_id,
            )[i].user_id != user_id,
        !exists|i: int|
            0 <= i < drop_user_links(s, user_id).len() && #[trigger] drop_user_links(
                s,
                user_id,
            )[i].user_id == user_id,
{
    broadcast use vstd::seq_lib::group_filter_ensures;

}

/// Law: upserts for two different pairs commute — whichever order the two
/// writes arrive in, the ownership table afterwards is the same table.
pub proof fn lemma_independent_sets_commute(
    s: Seq<OptionOwnership>,
    rec1: OptionOwnership,
    rec2: OptionOwnership,
)
    requires
        owns_sorted(s),
        forall|i: int| 0 <= i < s.len() ==> #[trigger] s[i].quantity > 0,
        rec1.quantity > 0,
        rec2.quantity > 0,
        !(rec1.user_id == rec2.user_id && rec1.option_id == rec2.option_id),
    ensures
        upsert_own(upsert_own(s, rec1), rec2) == upsert_own(upsert_own(s, rec2), rec1),
{
    let first = upsert_own(upsert_own(s, rec1), rec2);
    let second = upsert_own(upsert_own(s, rec2), rec1);
    lemma_upsert_sorted(s, rec1);
    lemma_upsert_sorted(s, rec2);
    lemma_upsert_sorted(upsert_own(s, rec1), rec2);
    lemma_upsert_sorted(upsert_own(s, rec2), rec1);
    lemma_upsert_positive(s, rec1);
    lemma_upsert_positive(s, rec2);
    lemma_upsert_positive(upsert_own(s, rec1), rec2);
    lemma_upsert_positive(upsert_own(s, rec2), rec1);
    assert forall|a: i64, b: i64| #[trigger] has_own(first, a, b) == has_own(second, a, b) by {
        lemma_both_orders_agree(s, rec1, rec2, a, b);
    }
    assert forall|a: i64, b: i64| #[trigger] qty_of(first, a, b) == qty_of(second, a, b) by {
        lemma_both_orders_agree(s, rec1, rec2, a, b);
    }
    lemma_table_determined_by_lookups(first, second);
}

/// Both orders of two upserts for different pairs answer one lookup alike.
proof fn lemma_both_orders_agree(
    s: Seq<OptionOwnership>,
    rec1: OptionOwnership,
    rec2: OptionOwnership,
    a: i64,
    b: i64,
)
    requires
        owns_sorted(s),
        !(rec1.user_id == rec2.user_id && rec1.option_id == rec2.option_id),
    ensures
        has_own(upsert_own(upsert_own(s, rec1), rec2), a, b) == has_own(
            upsert_own(upsert_own(s, rec2), rec1),
            a,
            b,
        ),
        qty_of(upsert_own(upsert_own(s, rec1), rec2), a, b) == qty_of(
            upsert_own(upsert_own(s, rec2), rec1),
            a,
            b,
        ),
{
    lemma_upsert_sorted(s, rec1);
    lemma_upsert_sorted(s, rec2);
    lemma_upsert_qty(s, rec1, a, b);
    lemma_upsert_qty(s, rec2, a, b);
    lemma_upsert_qty(upsert_own(s, rec1), rec2, a, b);
    lemma_upsert_qty(upsert_own(s, rec2), rec1, a, b);
    lemma_upsert_qty(s, rec1, rec2.user_id, rec2.option_id);
    lemma_upsert_qty(s, rec2, rec1.user_id, rec1.option_id);
    lemma_upsert_qty(upsert_own(s, rec1), rec2, rec1.user_id, rec1.option_id);
    lemma_upsert_qty(upsert_own(s, rec2), rec1, rec2.user_id, rec2.option_id);
}

} // verus!
