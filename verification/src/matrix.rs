//! The matrix projector: a pure function from a snapshot of the three
//! entity tables to the dense report, options as rows and users as columns,
//! with 0 in every cell whose (option, user) pair has no ownership link.

use vstd::prelude::*;
use crate::models::{MatrixRow, MatrixView, OptionContract, OptionOwnership, User};
use crate::ownership::{has_own, lemma_sorted_pair_unique, pair_unique, qty_of};
use crate::store::{clone_option, Ledger};

verus! {

/// Looks up the quantity held for one (user, option) pair by a linear scan:
/// the stored quantity if a link exists, 0 otherwise.
pub fn lookup_qty(ownerships: &Vec<OptionOwnership>, user_id: i64, option_id: i64) -> (q: i64)
    requires
        pair_unique(ownerships@),
    ensures
        q == qty_of(ownerships@, user_id, option_id),
{
    let n = ownerships.len();
    let mut i: usize = 0;
    while i < n
        invariant
            n == ownerships@.len(),
            0 <= i <= n,
            pair_unique(ownerships@),
            forall|k: int|
                0 <= k < i ==> !(#[trigger] ownerships@[k].user_id == user_id
                    && ownerships@[k].option_id == option_id),
        decreases n - i,
    {
        let w = ownerships[i];
        if w.user_id == user_id && w.option_id == option_id {
            proof {
                assert(has_own(ownerships@, user_id, option_id));
                let k = choose|k: int|
                    0 <= k < ownerships@.len() && ownerships@[k].user_id == user_id
                        && ownerships@[k].option_id == option_id;
                assert(k == i);
            }
            return w.quantity;
        }
        i += 1;
    }
    proof {
        assert(!has_own(ownerships@, user_id, option_id));
    }
    0
}

/// Assembles the report from a snapshot: one row per option, in the given
/// order, each row holding that option and the quantities held by each user,
/// aligned with the given user order.
pub fn project_matrix(
    users: Vec<User>,
    options: Vec<OptionContract>,
    ownerships: Vec<OptionOwnership>,
) -> (r: MatrixView)
    requires
        pair_unique(ownerships@),
    ensures
        r.users@ == users@,
        r.rows@.len() == options@.len(),
        forall|i: int|
            0 <= i < options@.len() ==> #[trigger] r.rows@[i].option == options@[i]
                && r.rows@[i].quantities@.len() == users@.len(),
        forall|i: int, j: int|
            0 <= i < options@.len() && 0 <= j < users@.len() ==> #[trigger] r.rows@[i].quantities@[j]
                == qty_of(ownerships@, users@[j].id, options@[i].id),
{
    let n_options = options.len();
    let n_users = users.len();
    let mut rows: Vec<MatrixRow> = Vec::new();
    let mut i: usize = 0;
    while i < n_options
        invariant
            n_options == options@.len(),
            n_users == users@.len(),
            pair_unique(ownerships@),
            0 <= i <= n_options,
            rows@.len() == i,
            forall|k: int|
                0 <= k < i ==> #[trigger] rows@[k].option == options@[k]
                    && rows@[k].quantities@.len() == users@.len(),
            forall|k: int, j: int|
                0 <= k < i && 0 <= j < users@.len() ==> #[trigger] rows@[k].quantities@[j]
                    == qty_of(ownerships@, users@[j].id, options@[k].id),
        decreases n_options - i,
    {
        let option = clone_option(&options[i]);
        let mut quantities: Vec<i64> = Vec::new();
        let mut j: usize = 0;
        while j < n_users
            invariant
                n_users == users@.len(),
                n_options == options@.len(),
                pair_unique(ownerships@),
                0 <= i < n_options,
                0 <= j <= n_users,
                option == options@[i as int],
                quantities@.len() == j,
                forall|k: int|
                    0 <= k < j ==> #[trigger] quantities@[k] == qty_of(
                        ownerships@,
                        users@[k].id,
                        options@[i as int].id,
                    ),
            decreases n_users - j,
        {
            let q = lookup_qty(&ownerships, users[j].id, option.id);
            quantities.push(q);
            j += 1;
        }
        rows.push(MatrixRow { option, quantities });
        i += 1;
    }
    MatrixView { users, rows }
}

impl Ledger {
    /// The report over the current store state: users in ascending id order
    /// as columns, one row per option in ascending id order, each cell the
    /// quantity held (0 where no link exists). Reads the three tables and
    /// assembles the result; the store is not changed.
    pub fn get_matrix_view(&self) -> (r: MatrixView)
        requires
            self.wf(),
        ensures
            r.users@ == self.users@,
            r.rows@.len() == self.options@.len(),
            forall|i: int|
                0 <= i < self.options@.len() ==> #[trigger] r.rows@[i].option == self.options@[i]
                    && r.rows@[i].quantities@.len() == self.users@.len(),
            forall|i: int, j: int|
                0 <= i < self.options@.len() && 0 <= j < self.users@.len()
                    ==> #[trigger] r.rows@[i].quantities@[j] == qty_of(
                    self.ownerships@,
                    self.users@[j].id,
                    self.options@[i].id,
                ),
    {
        let users = self.list_users();
        let options = self.list_options();
        let ownerships = self.get_ownerships();
        proof {
            lemma_sorted_pair_unique(self.ownerships@);
        }
        project_matrix(users, options, ownerships)
    }
}

} // verus!
