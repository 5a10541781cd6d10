//! The entity store and the ledger operations on it: create/list/delete for
//! users and options, the upsert-or-delete ownership rule, and the ordered
//! ownership listing. Every operation validates its input, keeps the store's
//! invariants, and says in its contract exactly what it changed.

use vstd::prelude::*;
use crate::models::{LedgerError, OptionContract, OptionOwnership, User};
use crate::ownership::{
    drop_option_links, drop_user_links, lemma_filter_keeps_order, lemma_filter_take_step,
    lemma_upsert_sorted, own_lt, owns_sorted, remove_own, upsert_own,
};

verus! {

/// Some user in the list carries this id.
pub open spec fn has_user(users: Seq<User>, id: i64) -> bool {
    exists|i: int| 0 <= i < users.len() && users[i].id == id
}

/// Some option in the list carries this id.
pub open spec fn has_option(options: Seq<OptionContract>, id: i64) -> bool {
    exists|i: int| 0 <= i < options.len() && options[i].id == id
}

/// Some user in the list carries this name.
pub open spec fn name_taken(users: Seq<User>, name: Seq<char>) -> bool {
    exists|i: int| 0 <= i < users.len() && users[i].name@ == name
}

/// The option kind is exactly "call" or "put" (case-sensitive).
pub open spec fn valid_kind(kind: Seq<char>) -> bool {
    kind == "call"@ || kind == "put"@
}

/// The whole ledger state: the three entity tables plus the id counters the
/// store assigns from. Held by the caller and threaded through every
/// operation; persistence of this state belongs to the shell around it.
pub struct Ledger {
    pub users: Vec<User>,
    pub options: Vec<OptionContract>,
    pub ownerships: Vec<OptionOwnership>,
    pub next_user_id: i64,
    pub next_option_id: i64,
}

impl Ledger {
    /// The store's invariants: ids are positive, below the counters and
    /// strictly ascending (creation order); user names are unique; the
    /// ownership table is strictly sorted by (option id, user id), holds
    /// only positive quantities, and references only existing users and
    /// options — no orphan links at rest.
    pub open spec fn wf(self) -> bool {
        &&& 1 <= self.next_user_id
        &&& 1 <= self.next_option_id
        &&& forall|i: int|
            0 <= i < self.users@.len() ==> 1 <= #[trigger] self.users@[i].id < self.next_user_id
        &&& forall|i: int, j: int|
            0 <= i < j < self.users@.len() ==> self.users@[i].id < self.users@[j].id
        &&& forall|i: int, j: int|
            0 <= i < self.users@.len() && 0 <= j < self.users@.len() && i != j
                ==> #[trigger] self.users@[i].name@ != #[trigger] self.users@[j].name@
        &&& forall|i: int|
            0 <= i < self.options@.len() ==> 1 <= #[trigger] self.options@[i].id
                < self.next_option_id
        &&& forall|i: int, j: int|
            0 <= i < j < self.options@.len() ==> self.options@[i].id < self.options@[j].id
        &&& owns_sorted(self.ownerships@)
        &&& forall|i: int|
            0 <= i < self.ownerships@.len() ==> #[trigger] self.ownerships@[i].quantity > 0
        &&& forall|i: int|
            0 <= i < self.ownerships@.len() ==> has_user(
                self.users@,
                #[trigger] self.ownerships@[i].user_id,
            ) && has_option(self.options@, self.ownerships@[i].option_id)
    }

    /// A fresh, empty ledger.
    pub fn new() -> (r: Ledger)
        ensures
            r.wf(),
            r.users@ =~= Seq::<User>::empty(),
            r.options@ =~= Seq::<OptionContract>::empty(),
            r.ownerships@ =~= Seq::<OptionOwnership>::empty(),
            r.next_user_id == 1,
            r.next_option_id == 1,
    {
        Ledger {
            users: Vec::new(),
            options: Vec::new(),
            ownerships: Vec::new(),
            next_user_id: 1,
            next_option_id: 1,
        }
    }
}

impl Ledger {
    /// True exactly when some existing user already carries this name.
    fn name_exists(&self, name: &String) -> (r: bool)
        ensures
            r == name_taken(self.users@, name@),
    {
        let n = self.users.len();
        let mut i: usize = 0;
        while i < n
            invariant
                n == self.users@.len(),
                0 <= i <= n,
                forall|k: int| 0 <= k < i ==> #[trigger] self.users@[k].name@ != name@,
            decreases n - i,
        {
            if self.users[i].name == *name {
                return true;
            }
            i += 1;
        }
        false
    }

    /// Creates a user. An empty name is rejected before the store is
    /// touched; a name already in use breaks the uniqueness constraint.
    /// Otherwise the user is appended under the next fresh id.
    pub fn create_user(&mut self, name: String) -> (r: Result<User, LedgerError>)
        requires
            old(self).wf(),
            old(self).next_user_id < i64::MAX,
        ensures
            final(self).wf(),
            final(self).options == old(self).options,
            final(self).ownerships == old(self).ownerships,
            final(self).next_option_id == old(self).next_option_id,
            name@.len() == 0 ==> r == Result::<User, LedgerError>::Err(
                LedgerError::ValidationError,
            ) && *final(self) == *old(self),
            name@.len() > 0 && name_taken(old(self).users@, name@) ==> r == Result::<
                User,
                LedgerError,
            >::Err(LedgerError::ConstraintViolation) && *final(self) == *old(self),
            name@.len() > 0 && !name_taken(old(self).users@, name@) ==> {
                &&& r matches Ok(u) && u.id == old(self).next_user_id && u.name@ == name@
                    && final(self).users@ == old(self).users@.push(u)
                &&& final(self).next_user_id == old(self).next_user_id + 1
            },
    {
        if name.as_str().is_empty() {
            return Err(LedgerError::ValidationError);
        }
        if self.name_exists(&name) {
            return Err(LedgerError::ConstraintViolation);
        }
        let id = self.next_user_id;
        let user = User { id, name };
        let copy = User { id: user.id, name: user.name.clone() };
        self.users.push(user);
        self.next_user_id = id + 1;
        proof {
            let pre = old(self).users@;
            let post = self.users@;
            assert(forall|k: int| 0 <= k < pre.len() ==> post[k] == pre[k]);
            assert(post[pre.len() as int].name@ == name@);
            assert forall|i: int, j: int|
                0 <= i < post.len() && 0 <= j < post.len() && i != j implies #[trigger] post[i].name@
                != #[trigger] post[j].name@ by {
                if i == pre.len() {
                    assert(!name_taken(pre, name@));
                    assert(pre[j].name@ != name@);
                } else if j == pre.len() {
                    assert(pre[i].name@ != name@);
                }
            }
            assert forall|k: int| 0 <= k < self.ownerships@.len() implies has_user(
                post,
                #[trigger] self.ownerships@[k].user_id,
            ) by {
                assert(has_user(pre, self.ownerships@[k].user_id));
                let iu = choose|iu: int|
                    0 <= iu < pre.len() && pre[iu].id == self.ownerships@[k].user_id;
                assert(post[iu].id == self.ownerships@[k].user_id);
            }
        }
        Ok(copy)
    }

    /// Lists all users, in ascending id order (creation order).
    pub fn list_users(&self) -> (r: Vec<User>)
        ensures
            r@ =~= self.users@,
    {
        let n = self.users.len();
        let mut out: Vec<User> = Vec::new();
        let mut i: usize = 0;
        while i < n
            invariant
                n == self.users@.len(),
                0 <= i <= n,
                out@ =~= self.users@.take(i as int),
            decreases n - i,
        {
            let u = User { id: self.users[i].id, name: self.users[i].name.clone() };
            assert(u == self.users@[i as int]);
            out.push(u);
            i += 1;
        }
        out
    }

    /// Deletes a user by id; a no-op if the id is absent. Every ownership
    /// link of that user is removed with it.
    pub fn delete_user(&mut self, id: i64)
        requires
            old(self).wf(),
        ensures
            final(self).wf(),
            final(self).users@ == old(self).users@.filter(|u: User| u.id != id),
            final(self).ownerships@ == drop_user_links(old(self).ownerships@, id),
            final(self).options == old(self).options,
            final(self).next_user_id == old(self).next_user_id,
            final(self).next_option_id == old(self).next_option_id,
    {
        let n = self.users.len();
        let mut kept: Vec<User> = Vec::new();
        let mut i: usize = 0;
        while i < n
            invariant
                n == self.users@.len(),
                0 <= i <= n,
                kept@ == self.users@.take(i as int).filter(|u: User| u.id != id),
            decreases n - i,
        {
            proof {
                lemma_filter_take_step(self.users@, |u: User| u.id != id, i as int);
            }
            if self.users[i].id != id {
                let u = User { id: self.users[i].id, name: self.users[i].name.clone() };
                assert(u == self.users@[i as int]);
                kept.push(u);
            }
            i += 1;
        }
        proof {
            assert(self.users@.take(n as int) =~= self.users@);
        }
        let m = self.ownerships.len();
        let mut links: Vec<OptionOwnership> = Vec::new();
        let mut j: usize = 0;
        while j < m
            invariant
                m == self.ownerships@.len(),
                0 <= j <= m,
                links@ == self.ownerships@.take(j as int).filter(
                    |w: OptionOwnership| w.user_id != id,
                ),
            decreases m - j,
        {
            proof {
                lemma_filter_take_step(
                    self.ownerships@,
                    |w: OptionOwnership| w.user_id != id,
                    j as int,
                );
            }
            let w = self.ownerships[j];
            if w.user_id != id {
                links.push(w);
            }
            j += 1;
        }
        proof {
            assert(self.ownerships@.take(m as int) =~= self.ownerships@);
        }
        self.users = kept;
        self.ownerships = links;
        proof {
            lemma_filter_keeps_order(old(self).ownerships@, |w: OptionOwnership| w.user_id != id);
            lemma_filter_keeps_order_users(old(self).users@, |u: User| u.id != id);
            assert forall|k: int| 0 <= k < self.ownerships@.len() implies has_user(
                self.users@,
                #[trigger] self.ownerships@[k].user_id,
            ) && has_option(self.options@, self.ownerships@[k].option_id) by {
                let w = self.ownerships@[k];
                assert(old(self).ownerships@.contains(w));
                let k0 = choose|k0: int|
                    0 <= k0 < old(self).ownerships@.len() && old(self).ownerships@[k0] == w;
                assert(has_user(old(self).users@, w.user_id));
                let iu = choose|iu: int|
                    0 <= iu < old(self).users@.len() && old(self).users@[iu].id == w.user_id;
                assert(old(self).users@[iu].id != id);
                assert(old(self).users@.filter(|u: User| u.id != id).contains(
                    old(self).users@[iu],
                )) by {
                    broadcast use vstd::seq_lib::group_filter_ensures;

                };
            }
        }
    }
}

/// Every user of a filtered user list comes from the list itself, and the
/// filtered list keeps its ascending id order and distinct names.
proof fn lemma_filter_keeps_order_users(s: Seq<User>, pred: spec_fn(User) -> bool)
    ensures
        forall|i: int| 0 <= i < s.filter(pred).len() ==> s.contains(#[trigger] s.filter(pred)[i]),
        (forall|i: int, j: int| 0 <= i < j < s.len() ==> s[i].id < s[j].id) ==> (forall|
            i: int,
            j: int,
        | 0 <= i < j < s.filter(pred).len() ==> s.filter(pred)[i].id < s.filter(pred)[j].id),
        (forall|i: int, j: int|
            0 <= i < s.len() && 0 <= j < s.len() && i != j ==> #[trigger] s[i].name@
                != #[trigger] s[j].name@) ==> (forall|i: int, j: int|
            0 <= i < s.filter(pred).len() && 0 <= j < s.filter(pred).len() && i != j
                ==> #[trigger] s.filter(pred)[i].name@ != #[trigger] s.filter(pred)[j].name@),
    decreases s.len(),
{
    reveal(Seq::filter);
    broadcast use vstd::seq_lib::group_filter_ensures;

    if s.len() == 0 {
    } else {
        let t = s.drop_last();
        assert(forall|i: int| 0 <= i < t.len() ==> t[i] == s[i]);
        lemma_filter_keeps_order_users(t, pred);
        assert(forall|x: User| t.contains(x) ==> s.contains(x));
        let ids_sorted = forall|i: int, j: int| 0 <= i < j < s.len() ==> s[i].id < s[j].id;
        let names_unique = forall|i: int, j: int|
            0 <= i < s.len() && 0 <= j < s.len() && i != j ==> #[trigger] s[i].name@
                != #[trigger] s[j].name@;
        if pred(s.last()) {
            assert(s.filter(pred) == t.filter(pred).push(s.last()));
            let f = s.filter(pred);
            if ids_sorted {
                assert forall|i: int, j: int| 0 <= i < j < f.len() implies f[i].id < f[j].id by {
                    if j == f.len() - 1 {
                        let x = t.filter(pred)[i];
                        assert(t.contains(x));
                        let k = choose|k: int| 0 <= k < t.len() && t[k] == x;
                        assert(s[k].id < s.last().id);
                    }
                }
            }
            if names_unique {
                assert forall|i: int, j: int|
                    0 <= i < f.len() && 0 <= j < f.len() && i != j implies #[trigger] f[i].name@
                    != #[trigger] f[j].name@ by {
                    if i < j && j == f.len() - 1 {
                        let x = t.filter(pred)[i];
                        assert(t.contains(x));
                        let k = choose|k: int| 0 <= k < t.len() && t[k] == x;
                        assert(s[k].name@ != s.last().name@);
                    } else if j < i && i == f.len() - 1 {
                        let x = t.filter(pred)[j];
                        assert(t.contains(x));
                        let k = choose|k: int| 0 <= k < t.len() && t[k] == x;
                        assert(s[k].name@ != s.last().name@);
                    }
                }
            }
        } else {
            assert(s.filter(pred) == t.filter(pred));
        }
    }
}

impl Ledger {
    /// Creates an option contract. A kind other than exactly "call" or
    /// "put", or an empty expiration, is rejected before the store is
    /// touched. Otherwise the option is appended under the next fresh id.
    pub fn create_option(
        &mut self,
        symbol: String,
        option_type: String,
        strike: u64,
        expiration: String,
    ) -> (r: Result<OptionContract, LedgerError>)
        requires
            old(self).wf(),
            old(self).next_option_id < i64::MAX,
        ensures
            final(self).wf(),
            final(self).users == old(self).users,
            final(self).ownerships == old(self).ownerships,
            final(self).next_user_id == old(self).next_user_id,
            !(valid_kind(option_type@) && expiration@.len() > 0) ==> r == Result::<
                OptionContract,
                LedgerError,
            >::Err(LedgerError::ValidationError) && *final(self) == *old(self),
            valid_kind(option_type@) && expiration@.len() > 0 ==> {
                &&& r matches Ok(o) && o.id == old(self).next_option_id && o.symbol@ == symbol@
                    && o.option_type@ == option_type@ && o.strike == strike && o.expiration@
                    == expiration@ && final(self).options@ == old(self).options@.push(o)
                &&& final(self).next_option_id == old(self).next_option_id + 1
            },
    {
        if !(str_eq(option_type.as_str(), "call") || str_eq(option_type.as_str(), "put")) {
            return Err(LedgerError::ValidationError);
        }
        if expiration.as_str().is_empty() {
            return Err(LedgerError::ValidationError);
        }
        let id = self.next_option_id;
        let option = OptionContract { id, symbol, option_type, strike, expiration };
        let copy = OptionContract {
            id: option.id,
            symbol: option.symbol.clone(),
            option_type: option.option_type.clone(),
            strike: option.strike,
            expiration: option.expiration.clone(),
        };
        self.options.push(option);
        self.next_option_id = id + 1;
        proof {
            let pre = old(self).options@;
            let post = self.options@;
            assert(forall|k: int| 0 <= k < pre.len() ==> post[k] == pre[k]);
            assert forall|k: int| 0 <= k < self.ownerships@.len() implies has_option(
                post,
                #[trigger] self.ownerships@[k].option_id,
            ) by {
                assert(old(self).ownerships@[k].user_id == self.ownerships@[k].user_id);
                assert(has_option(pre, self.ownerships@[k].option_id));
                let io = choose|io: int|
                    0 <= io < pre.len() && pre[io].id == self.ownerships@[k].option_id;
                assert(post[io].id == self.ownerships@[k].option_id);
            }
        }
        Ok(copy)
    }

    /// Lists all options, in ascending id order (creation order).
    pub fn list_options(&self) -> (r: Vec<OptionContract>)
        ensures
            r@ =~= self.options@,
    {
        let n = self.options.len();
        let mut out: Vec<OptionContract> = Vec::new();
        let mut i: usize = 0;
        while i < n
            invariant
                n == self.options@.len(),
                0 <= i <= n,
                out@ =~= self.options@.take(i as int),
            decreases n - i,
        {
            let o = clone_option(&self.options[i]);
            out.push(o);
            i += 1;
        }
        out
    }

    /// Deletes an option by id; a no-op if the id is absent. Every ownership
    /// link to that option is removed with it.
    pub fn delete_option(&mut self, id: i64)
        requires
            old(self).wf(),
        ensures
            final(self).wf(),
            final(self).options@ == old(self).options@.filter(|o: OptionContract| o.id != id),
            final(self).ownerships@ == drop_option_links(old(self).ownerships@, id),
            final(self).users == old(self).users,
            final(self).next_user_id == old(self).next_user_id,
            final(self).next_option_id == old(self).next_option_id,
    {
        let n = self.options.len();
        let mut kept: Vec<OptionContract> = Vec::new();
        let mut i: usize = 0;
        while i < n
            invariant
                n == self.options@.len(),
                0 <= i <= n,
                kept@ == self.options@.take(i as int).filter(|o: OptionContract| o.id != id),
            decreases n - i,
        {
            proof {
                lemma_filter_take_step(self.options@, |o: OptionContract| o.id != id, i as int);
            }
            if self.options[i].id != id {
                let o = clone_option(&self.options[i]);
                kept.push(o);
            }
            i += 1;
        }
        proof {
            assert(self.options@.take(n as int) =~= self.options@);
        }
        let m = self.ownerships.len();
        let mut links: Vec<OptionOwnership> = Vec::new();
        let mut j: usize = 0;
        while j < m
            invariant
                m == self.ownerships@.len(),
                0 <= j <= m,
                links@ == self.ownerships@.take(j as int).filter(
                    |w: OptionOwnership| w.option_id != id,
                ),
            decreases m - j,
        {
            proof {
                lemma_filter_take_step(
                    self.ownerships@,
                    |w: OptionOwnership| w.option_id != id,
                    j as int,
                );
            }
            let w = self.ownerships[j];
            if w.option_id != id {
                links.push(w);
            }
            j += 1;
        }
        proof {
            assert(self.ownerships@.take(m as int) =~= self.ownerships@);
        }
        self.options = kept;
        self.ownerships = links;
        proof {
            lemma_filter_keeps_order(old(self).ownerships@, |w: OptionOwnership| w.option_id != id);
            lemma_filter_keeps_order_options(old(self).options@, |o: OptionContract| o.id != id);
            assert forall|k: int| 0 <= k < self.ownerships@.len() implies has_user(
                self.users@,
                #[trigger] self.ownerships@[k].user_id,
            ) && has_option(self.options@, self.ownerships@[k].option_id) by {
                let w = self.ownerships@[k];
                assert(old(self).ownerships@.contains(w));
                let k0 = choose|k0: int|
                    0 <= k0 < old(self).ownerships@.len() && old(self).ownerships@[k0] == w;
                assert(old(self).ownerships@[k0].user_id == w.user_id);
                assert(has_option(old(self).options@, w.option_id));
                let io = choose|io: int|
                    0 <= io < old(self).options@.len() && old(self).options@[io].id == w.option_id;
                assert(old(self).options@[io].id != id);
                assert(old(self).options@.filter(|o: OptionContract| o.id != id).contains(
                    old(self).options@[io],
                )) by {
                    broadcast use vstd::seq_lib::group_filter_ensures;

                };
            }
        }
    }
}

impl Ledger {
    /// True exactly when a user with this id exists.
    fn user_exists(&self, id: i64) -> (r: bool)
        ensures
            r == has_user(self.users@, id),
    {
        let n = self.users.len();
        let mut i: usize = 0;
        while i < n
            invariant
                n == self.users@.len(),
                0 <= i <= n,
                forall|k: int| 0 <= k < i ==> #[trigger] self.users@[k].id != id,
            decreases n - i,
        {
            if self.users[i].id == id {
                return true;
            }
            i += 1;
        }
        false
    }

    /// True exactly when an option with this id exists.
    fn option_exists(&self, id: i64) -> (r: bool)
        ensures
            r == has_option(self.options@, id),
    {
        let n = self.options.len();
        let mut i: usize = 0;
        while i < n
            invariant
                n == self.options@.len(),
                0 <= i <= n,
                forall|k: int| 0 <= k < i ==> #[trigger] self.options@[k].id != id,
            decreases n - i,
        {
            if self.options[i].id == id {
                return true;
            }
            i += 1;
        }
        false
    }

    /// The upsert-or-delete rule, one atomic operation. A non-positive
    /// quantity deletes any link for the pair — never an error, even if
    /// neither id exists. A positive quantity requires both ids to exist
    /// (no dangling links are ever written) and then creates or overwrites
    /// the single link for the pair.
    pub fn set_ownership(&mut self, user_id: i64, option_id: i64, quantity: i64) -> (r: Result<
        (),
        LedgerError,
    >)
        requires
            old(self).wf(),
        ensures
            final(self).wf(),
            final(self).users == old(self).users,
            final(self).options == old(self).options,
            final(self).next_user_id == old(self).next_user_id,
            final(self).next_option_id == old(self).next_option_id,
            quantity <= 0 ==> r == Result::<(), LedgerError>::Ok(()) && final(self).ownerships@
                == remove_own(old(self).ownerships@, user_id, option_id),
            quantity > 0 && !(has_user(old(self).users@, user_id) && has_option(
                old(self).options@,
                option_id,
            )) ==> r == Result::<(), LedgerError>::Err(LedgerError::NotFound) && *final(self)
                == *old(self),
            quantity > 0 && has_user(old(self).users@, user_id) && has_option(
                old(self).options@,
                option_id,
            ) ==> r == Result::<(), LedgerError>::Ok(()) && final(self).ownerships@ == upsert_own(
                old(self).ownerships@,
                OptionOwnership { user_id, option_id, quantity },
            ),
    {
        if quantity <= 0 {
            let m = self.ownerships.len();
            let mut links: Vec<OptionOwnership> = Vec::new();
            let mut j: usize = 0;
            while j < m
                invariant
                    m == self.ownerships@.len(),
                    0 <= j <= m,
                    links@ == self.ownerships@.take(j as int).filter(
                        |w: OptionOwnership| !(w.user_id == user_id && w.option_id == option_id),
                    ),
                decreases m - j,
            {
                proof {
                    lemma_filter_take_step(
                        self.ownerships@,
                        |w: OptionOwnership| !(w.user_id == user_id && w.option_id == option_id),
                        j as int,
                    );
                }
                let w = self.ownerships[j];
                if !(w.user_id == user_id && w.option_id == option_id) {
                    links.push(w);
                }
                j += 1;
            }
            proof {
                assert(self.ownerships@.take(m as int) =~= self.ownerships@);
            }
            self.ownerships = links;
            proof {
                self.lemma_links_filter_wf(
                    *old(self),
                    |w: OptionOwnership| !(w.user_id == user_id && w.option_id == option_id),
                );
            }
            return Ok(());
        }
        if !(self.user_exists(user_id) && self.option_exists(option_id)) {
            return Err(LedgerError::NotFound);
        }
        let rec = OptionOwnership { user_id, option_id, quantity };
        let m = self.ownerships.len();
        let mut links: Vec<OptionOwnership> = Vec::new();
        let mut j: usize = 0;
        while j < m
            invariant
                m == self.ownerships@.len(),
                0 <= j <= m,
                links@ == self.ownerships@.take(j as int).filter(
                    |w: OptionOwnership| own_lt(w, rec),
                ),
                rec == (OptionOwnership { user_id, option_id, quantity }),
            decreases m - j,
        {
            proof {
                lemma_filter_take_step(
                    self.ownerships@,
                    |w: OptionOwnership| own_lt(w, rec),
                    j as int,
                );
            }
            let w = self.ownerships[j];
            if w.option_id < option_id || (w.option_id == option_id && w.user_id < user_id) {
                links.push(w);
            }
            j += 1;
        }
        links.push(rec);
        proof {
            reveal(Seq::filter);
            assert(self.ownerships@.take(m as int) =~= self.ownerships@);
            assert(self.ownerships@.take(0).filter(|w: OptionOwnership| own_lt(rec, w)) =~= Seq::<
                OptionOwnership,
            >::empty());
            assert(links@ =~= self.ownerships@.filter(|w: OptionOwnership| own_lt(w, rec))
                + seq![rec] + self.ownerships@.take(0).filter(|w: OptionOwnership| own_lt(rec, w)));
        }
        let mut j: usize = 0;
        while j < m
            invariant
                m == self.ownerships@.len(),
                0 <= j <= m,
                links@ == self.ownerships@.filter(|w: OptionOwnership| own_lt(w, rec)) + seq![rec]
                    + self.ownerships@.take(j as int).filter(|w: OptionOwnership| own_lt(rec, w)),
                rec == (OptionOwnership { user_id, option_id, quantity }),
            decreases m - j,
        {
            proof {
                lemma_filter_take_step(
                    self.ownerships@,
                    |w: OptionOwnership| own_lt(rec, w),
                    j as int,
                );
                assert(self.ownerships@.take(m as int) =~= self.ownerships@);
            }
            let w = self.ownerships[j];
            if option_id < w.option_id || (w.option_id == option_id && user_id < w.user_id) {
                links.push(w);
            }
            j += 1;
        }
        proof {
            assert(self.ownerships@.take(m as int) =~= self.ownerships@);
        }
        self.ownerships = links;
        proof {
            self.lemma_upsert_wf(*old(self), rec);
        }
        Ok(())
    }

    /// The ownership table after dropping some links is still well formed,
    /// provided the rest of the state is untouched.
    proof fn lemma_links_filter_wf(self, pre: Ledger, pred: spec_fn(OptionOwnership) -> bool)
        requires
            pre.wf(),
            self.users == pre.users,
            self.options == pre.options,
            self.next_user_id == pre.next_user_id,
            self.next_option_id == pre.next_option_id,
            self.ownerships@ == pre.ownerships@.filter(pred),
        ensures
            self.wf(),
    {
        lemma_filter_keeps_order(pre.ownerships@, pred);
        assert forall|k: int| 0 <= k < self.ownerships@.len() implies has_user(
            self.users@,
            #[trigger] self.ownerships@[k].user_id,
        ) && has_option(self.options@, self.ownerships@[k].option_id)
            && self.ownerships@[k].quantity > 0 by {
            let w = self.ownerships@[k];
            assert(pre.ownerships@.contains(w));
            let k0 = choose|k0: int|
                0 <= k0 < pre.ownerships@.len() && pre.ownerships@[k0] == w;
            assert(pre.ownerships@[k0].user_id == w.user_id);
            assert(pre.ownerships@[k0].quantity > 0);
        }
    }

    /// The ownership table after the upsert of a checked record is still
    /// well formed, provided the rest of the state is untouched.
    proof fn lemma_upsert_wf(self, pre: Ledger, rec: OptionOwnership)
        requires
            pre.wf(),
            rec.quantity > 0,
            has_user(pre.users@, rec.user_id),
            has_option(pre.options@, rec.option_id),
            self.users == pre.users,
            self.options == pre.options,
            self.next_user_id == pre.next_user_id,
            self.next_option_id == pre.next_option_id,
            self.ownerships@ == upsert_own(pre.ownerships@, rec),
        ensures
            self.wf(),
    {
        broadcast use vstd::seq_lib::group_filter_ensures;

        let below = pre.ownerships@.filter(|w: OptionOwnership| own_lt(w, rec));
        let above = pre.ownerships@.filter(|w: OptionOwnership| own_lt(rec, w));
        let post = self.ownerships@;
        lemma_filter_keeps_order(pre.ownerships@, |w: OptionOwnership| own_lt(w, rec));
        lemma_filter_keeps_order(pre.ownerships@, |w: OptionOwnership| own_lt(rec, w));
        assert(post.len() == below.len() + 1 + above.len());
        assert(forall|i: int| 0 <= i < below.len() ==> post[i] == below[i]);
        assert(post[below.len() as int] == rec);
        assert(forall|i: int|
            below.len() + 1 <= i < post.len() ==> post[i] == above[i - below.len() - 1]);
        lemma_upsert_sorted(pre.ownerships@, rec);
        assert forall|k: int| 0 <= k < post.len() implies has_user(
            self.users@,
            #[trigger] post[k].user_id,
        ) && has_option(self.options@, post[k].option_id) && post[k].quantity > 0 by {
            let w = post[k];
            if w != rec {
                assert(pre.ownerships@.contains(w)) by {
                    if k < below.len() {
                        assert(w == below[k]);
                    } else {
                        assert(w == above[k - below.len() - 1]);
                    }
                }
                let k0 = choose|k0: int|
                    0 <= k0 < pre.ownerships@.len() && pre.ownerships@[k0] == w;
                assert(pre.ownerships@[k0].user_id == w.user_id);
                assert(pre.ownerships@[k0].quantity > 0);
            }
        }
    }

    /// Lists all ownership links, ordered by option id then user id.
    pub fn get_ownerships(&self) -> (r: Vec<OptionOwnership>)
        ensures
            r@ =~= self.ownerships@,
    {
        let n = self.ownerships.len();
        let mut out: Vec<OptionOwnership> = Vec::new();
        let mut i: usize = 0;
        while i < n
            invariant
                n == self.ownerships@.len(),
                0 <= i <= n,
                out@ =~= self.ownerships@.take(i as int),
            decreases n - i,
        {
            out.push(self.ownerships[i]);
            i += 1;
        }
        out
    }
}

/// A field-for-field copy of an option record, equal to the original.
pub(crate) fn clone_option(o: &OptionContract) -> (r: OptionContract)
    ensures
        r == *o,
{
    OptionContract {
        id: o.id,
        symbol: o.symbol.clone(),
        option_type: o.option_type.clone(),
        strike: o.strike,
        expiration: o.expiration.clone(),
    }
}

/// Every option of a filtered option list comes from the list itself, and
/// the filtered list keeps its ascending id order.
proof fn lemma_filter_keeps_order_options(s: Seq<OptionContract>, pred: spec_fn(OptionContract) -> bool)
    ensures
        forall|i: int| 0 <= i < s.filter(pred).len() ==> s.contains(#[trigger] s.filter(pred)[i]),
        (forall|i: int, j: int| 0 <= i < j < s.len() ==> s[i].id < s[j].id) ==> (forall|
            i: int,
            j: int,
        | 0 <= i < j < s.filter(pred).len() ==> s.filter(pred)[i].id < s.filter(pred)[j].id),
    decreases s.len(),
{
    reveal(Seq::filter);
    broadcast use vstd::seq_lib::group_filter_ensures;

    if s.len() == 0 {
    } else {
        let t = s.drop_last();
        assert(forall|i: int| 0 <= i < t.len() ==> t[i] == s[i]);
        lemma_filter_keeps_order_options(t, pred);
        assert(forall|x: OptionContract| t.contains(x) ==> s.contains(x));
        let ids_sorted = forall|i: int, j: int| 0 <= i < j < s.len() ==> s[i].id < s[j].id;
        if pred(s.last()) {
            assert(s.filter(pred) == t.filter(pred).push(s.last()));
            let f = s.filter(pred);
            if ids_sorted {
                assert forall|i: int, j: int| 0 <= i < j < f.len() implies f[i].id < f[j].id by {
                    if j == f.len() - 1 {
                        let x = t.filter(pred)[i];
                        assert(t.contains(x));
                        let k = choose|k: int| 0 <= k < t.len() && t[k] == x;
                        assert(s[k].id < s.last().id);
                    }
                }
            }
        } else {
            assert(s.filter(pred) == t.filter(pred));
        }
    }
}

/// Character-by-character string comparison, so that contracts can speak of
/// the views directly.
fn str_eq(a: &str, b: &str) -> (r: bool)
    ensures
        r == (a@ == b@),
{
    let an = a.unicode_len();
    let bn = b.unicode_len();
    if an != bn {
        proof {
            assert(a@ != b@) by {
                assert(a@.len() != b@.len());
            }
        }
        return false;
    }
    let mut i: usize = 0;
    while i < an
        invariant
            an == a@.len(),
            an == b@.len(),
            0 <= i <= an,
            forall|k: int| 0 <= k < i ==> a@[k] == b@[k],
        decreases an - i,
    {
        if a.get_char(i) != b.get_char(i) {
            return false;
        }
        i += 1;
    }
    proof {
        assert(a@ =~= b@);
    }
    true
}

} // verus!
