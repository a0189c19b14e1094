use vstd::prelude::*;
use vstd::seq_lib::group_filter_ensures;

use crate::model::Model;
use crate::model::ModelView;
use crate::model::StoreError;

verus! {

broadcast use group_filter_ensures;

/// An in-memory table of [`Model`] rows together with the set of existing
/// user ids that rows may reference. The store assigns surrogate ids from a
/// counter and enforces the table's integrity rules; every operation states
/// in its contract exactly what it returns and how the table changes.
pub struct Store {
    users: Vec<i32>,
    records: Vec<Model>,
    next_id: i32,
}

/// The mathematical content of a [`Store`]: the user ids, the rows in
/// insertion order, and the next id the store will assign.
pub struct StoreView {
    pub users: Seq<i32>,
    pub recs: Seq<Model>,
    pub next_id: int,
}

/// Rows owned by this user.
pub open spec fn owned_by(user_id: i32) -> spec_fn(Model) -> bool {
    |m: Model| m.user_id == user_id
}

/// Rows not owned by this user.
pub open spec fn not_owned_by(user_id: i32) -> spec_fn(Model) -> bool {
    |m: Model| m.user_id != user_id
}

/// Rows whose id differs from this one.
pub open spec fn other_ids(id: i32) -> spec_fn(Model) -> bool {
    |m: Model| m.id != id
}

/// User ids other than this one.
pub open spec fn other_users(user_id: i32) -> spec_fn(i32) -> bool {
    |u: i32| u != user_id
}

/// The rewrite a cascading user-id change applies to one user id.
pub open spec fn renamed_user(old_user_id: i32, new_user_id: i32) -> spec_fn(i32) -> i32 {
    |u: i32|
        if u == old_user_id {
            new_user_id
        } else {
            u
        }
}

/// The rewrite a cascading user-id change applies to one row.
pub open spec fn renamed_row(old_user_id: i32, new_user_id: i32) -> spec_fn(Model) -> Model {
    |m: Model|
        Model {
            id: m.id,
            user_id: if m.user_id == old_user_id {
                new_user_id
            } else {
                m.user_id
            },
            network_instance_id: m.network_instance_id,
            network_config: m.network_config,
            disabled: m.disabled,
            create_time: m.create_time,
            update_time: m.update_time,
        }
}

impl View for Store {
    type V = StoreView;

    closed spec fn view(&self) -> StoreView {
        StoreView { users: self.users@, recs: self.records@, next_id: self.next_id as int }
    }
}

impl StoreView {
    /// The user id is present.
    pub open spec fn has_user(self, user_id: int) -> bool {
        exists|i: int| 0 <= i < self.users.len() && self.users[i] as int == user_id
    }

    /// Some row carries this id.
    pub open spec fn has_id(self, id: int) -> bool {
        exists|i: int| 0 <= i < self.recs.len() && self.recs[i].id as int == id
    }

    /// Some row carries this network instance id.
    pub open spec fn has_instance_id(self, network_instance_id: Seq<char>) -> bool {
        exists|i: int|
            0 <= i < self.recs.len() && self.recs[i].network_instance_id@ == network_instance_id
    }

    /// The position of the row with this id (meaningful when `has_id` holds:
    /// ids are unique under `inv`).
    pub open spec fn idx_of_id(self, id: int) -> int {
        choose|i: int| 0 <= i < self.recs.len() && self.recs[i].id as int == id
    }

    /// The row with this id.
    pub open spec fn rec_of_id(self, id: int) -> Model {
        self.recs[self.idx_of_id(id)]
    }

    /// The position of the row with this network instance id.
    pub open spec fn idx_of_instance_id(self, network_instance_id: Seq<char>) -> int {
        choose|i: int|
            0 <= i < self.recs.len() && self.recs[i].network_instance_id@ == network_instance_id
    }

    /// The row with this network instance id.
    pub open spec fn rec_of_instance_id(self, network_instance_id: Seq<char>) -> Model {
        self.recs[self.idx_of_instance_id(network_instance_id)]
    }

    /// What holds of every single row: a positive id below the counter, an
    /// owner among the users, and a mutation time no earlier than creation.
    pub open spec fn row_ok(self, m: Model) -> bool {
        &&& 1 <= m.id < self.next_id
        &&& self.has_user(m.user_id as int)
        &&& m.create_time <= m.update_time
    }

    /// The store's integrity rules: unique user ids, unique row ids, a
    /// globally unique `network_instance_id`, and `row_ok` for every row.
    pub open spec fn inv(self) -> bool {
        &&& 1 <= self.next_id <= i32::MAX
        &&& forall|i: int, j: int|
            0 <= i < self.users.len() && 0 <= j < self.users.len() && i != j ==> self.users[i]
                != self.users[j]
        &&& forall|i: int, j: int|
            0 <= i < self.recs.len() && 0 <= j < self.recs.len() && i != j ==> self.recs[i].id
                != self.recs[j].id
        &&& forall|i: int, j: int|
            0 <= i < self.recs.len() && 0 <= j < self.recs.len() && i != j
                ==> self.recs[i].network_instance_id@ != self.recs[j].network_instance_id@
        &&& forall|i: int| 0 <= i < self.recs.len() ==> self.row_ok(#[trigger] self.recs[i])
    }
}

impl Store {
    /// An empty store: no users, no rows, ids starting at 1.
    pub fn new() -> (s: Store)
        ensures
            s@.inv(),
            s@.users == Seq::<i32>::empty(),
            s@.recs == Seq::<Model>::empty(),
            s@.next_id == 1,
    {
        Store { users: Vec::new(), records: Vec::new(), next_id: 1 }
    }

    /// Whether this user id is registered.
    pub fn user_exists(&self, user_id: i32) -> (r: bool)
        ensures
            r == self@.has_user(user_id as int),
    {
        let mut i: usize = 0;
        while i < self.users.len()
            invariant
                i <= self.users@.len(),
                forall|k: int| 0 <= k < i ==> self.users@[k] != user_id,
            decreases self.users@.len() - i,
        {
            if self.users[i] == user_id {
                proof {
                    assert((i as int) < self@.users.len() && self@.users[i as int] as int
                        == user_id as int);
                }
                return true;
            }
            i = i + 1;
        }
        false
    }

    /// Registers a user id; reports whether it was new.
    pub fn add_user(&mut self, user_id: i32) -> (added: bool)
        requires
            old(self)@.inv(),
        ensures
            final(self)@.inv(),
            added == !old(self)@.has_user(user_id as int),
            added ==> final(self)@.users == old(self)@.users.push(user_id),
            !added ==> final(self)@.users == old(self)@.users,
            final(self)@.recs == old(self)@.recs,
            final(self)@.next_id == old(self)@.next_id,
    {
        if self.user_exists(user_id) {
            return false;
        }
        self.users.push(user_id);
        proof {
            let pre = old(self)@;
            let post = self@;
            assert forall|a: int, b: int|
                0 <= a < post.users.len() && 0 <= b < post.users.len() && a
                    != b implies post.users[a] != post.users[b] by {
                let n = pre.users.len() as int;
                if a < n && b < n {
                    assert(pre.users[a] != pre.users[b]);
                } else if a == n {
                    assert(pre.users[b] as int != user_id as int);
                } else if b == n {
                    assert(pre.users[a] as int != user_id as int);
                }
            }
            assert(post.recs == pre.recs);
            assert forall|a: int, b: int|
                0 <= a < post.recs.len() && 0 <= b < post.recs.len() && a
                    != b implies post.recs[a].id != post.recs[b].id by {
                assert(pre.recs[a].id != pre.recs[b].id);
            }
            assert forall|a: int, b: int|
                0 <= a < post.recs.len() && 0 <= b < post.recs.len() && a
                    != b implies post.recs[a].network_instance_id@
                != post.recs[b].network_instance_id@ by {
                assert(pre.recs[a].network_instance_id@ != pre.recs[b].network_instance_id@);
            }
            assert forall|i: int| 0 <= i < post.recs.len() implies post.row_ok(
                #[trigger] post.recs[i],
            ) by {
                assert(pre.row_ok(pre.recs[i]));
                let w = choose|k: int|
                    0 <= k < pre.users.len() && pre.users[k] as int == pre.recs[i].user_id as int;
                assert(post.users[w] as int == post.recs[i].user_id as int);
            }
        }
        true
    }

    /// Whether some row carries this network instance id.
    fn instance_id_exists(&self, network_instance_id: &String) -> (r: bool)
        ensures
            r == self@.has_instance_id(network_instance_id@),
    {
        let mut i: usize = 0;
        while i < self.records.len()
            invariant
                i <= self.records@.len(),
                forall|k: int|
                    0 <= k < i ==> self.records@[k].network_instance_id@ != network_instance_id@,
            decreases self.records@.len() - i,
        {
            if self.records[i].network_instance_id == *network_instance_id {
                proof {
                    assert((i as int) < self@.recs.len()
                        && self@.recs[i as int].network_instance_id@ == network_instance_id@);
                }
                return true;
            }
            i = i + 1;
        }
        false
    }

    /// The position of the row with this id, if any.
    fn find_index_by_id(&self, id: i32) -> (r: Option<usize>)
        requires
            self@.inv(),
        ensures
            match r {
                Some(i) => {
                    &&& self@.has_id(id as int)
                    &&& i < self@.recs.len()
                    &&& self@.recs[i as int].id == id
                    &&& i as int == self@.idx_of_id(id as int)
                },
                None => !self@.has_id(id as int),
            },
    {
        let mut i: usize = 0;
        while i < self.records.len()
            invariant
                self@.inv(),
                i <= self@.recs.len(),
                forall|k: int| 0 <= k < i ==> self@.recs[k].id != id,
            decreases self@.recs.len() - i,
        {
            if self.records[i].id == id {
                proof {
                    let j = self@.idx_of_id(id as int);
                    assert(0 <= j < self@.recs.len() && self@.recs[j].id as int == id as int);
                }
                return Some(i);
            }
            i = i + 1;
        }
        None
    }

    /// Inserts a new row and returns a copy of it.
    ///
    /// Exactly one of four outcomes, in this order of checks: the user id is
    /// unknown (`ForeignKeyViolation`), the network instance id is already
    /// taken (`UniqueConstraintViolation`), the id space is spent
    /// (`StorageUnavailable`) — each leaving the store unchanged — or a row
    /// is appended carrying the given fields, the fresh id `next_id`, and
    /// `create_time == update_time == now`.
    pub fn create(
        &mut self,
        user_id: i32,
        network_instance_id: String,
        network_config: String,
        disabled: bool,
        now: i64,
    ) -> (r: Result<Model, StoreError>)
        requires
            old(self)@.inv(),
        ensures
            final(self)@.inv(),
            final(self)@.users == old(self)@.users,
            !old(self)@.has_user(user_id as int) ==> r == Err::<Model, StoreError>(
                StoreError::ForeignKeyViolation,
            ) && final(self)@ == old(self)@,
            old(self)@.has_user(user_id as int) && old(self)@.has_instance_id(
                network_instance_id@,
            ) ==> r == Err::<Model, StoreError>(StoreError::UniqueConstraintViolation)
                && final(self)@ == old(self)@,
            old(self)@.has_user(user_id as int) && !old(self)@.has_instance_id(
                network_instance_id@,
            ) && old(self)@.next_id == i32::MAX ==> r == Err::<Model, StoreError>(
                StoreError::StorageUnavailable,
            ) && final(self)@ == old(self)@,
            old(self)@.has_user(user_id as int) && !old(self)@.has_instance_id(
                network_instance_id@,
            ) && old(self)@.next_id < i32::MAX ==> {
                &&& r is Ok
                &&& r->Ok_0@ == (ModelView {
                    id: old(self)@.next_id,
                    user_id: user_id as int,
                    network_instance_id: network_instance_id@,
                    network_config: network_config@,
                    disabled: disabled,
                    create_time: now as int,
                    update_time: now as int,
                })
                &&& final(self)@.recs == old(self)@.recs.push(r->Ok_0)
                &&& final(self)@.next_id == old(self)@.next_id + 1
            },
    {
        if !self.user_exists(user_id) {
            return Err(StoreError::ForeignKeyViolation);
        }
        if self.instance_id_exists(&network_instance_id) {
            return Err(StoreError::UniqueConstraintViolation);
        }
        if self.next_id == i32::MAX {
            return Err(StoreError::StorageUnavailable);
        }
        let rec = Model {
            id: self.next_id,
            user_id,
            network_instance_id,
            network_config,
            disabled,
            create_time: now,
            update_time: now,
        };
        let out = rec.duplicate();
        self.records.push(rec);
        self.next_id = self.next_id + 1;
        proof {
            let pre = old(self)@;
            let post = self@;
            let n = pre.recs.len() as int;
            assert forall|i: int, j: int|
                0 <= i < post.recs.len() && 0 <= j < post.recs.len() && i
                    != j implies post.recs[i].id != post.recs[j].id by {
                if i < n && j < n {
                    assert(pre.recs[i].id != pre.recs[j].id);
                } else if i == n {
                    assert(pre.row_ok(pre.recs[j]));
                } else if j == n {
                    assert(pre.row_ok(pre.recs[i]));
                }
            }
            assert forall|i: int, j: int|
                0 <= i < post.recs.len() && 0 <= j < post.recs.len() && i
                    != j implies post.recs[i].network_instance_id@
                != post.recs[j].network_instance_id@ by {
                if i < n && j < n {
                    assert(pre.recs[i].network_instance_id@ != pre.recs[j].network_instance_id@);
                }
            }
            assert forall|i: int| 0 <= i < post.recs.len() implies post.row_ok(
                #[trigger] post.recs[i],
            ) by {
                if i < n {
                    assert(pre.row_ok(pre.recs[i]));
                    let w = choose|k: int|
                        0 <= k < pre.users.len() && pre.users[k] as int == pre.recs[i].user_id as int;
                    assert(post.users[w] as int == post.recs[i].user_id as int);
                } else {
                    let w = choose|k: int|
                        0 <= k < pre.users.len() && pre.users[k] as int == user_id as int;
                    assert(post.users[w] as int == post.recs[i].user_id as int);
                }
            }
        }
        Ok(out)
    }

    /// Returns a copy of the row with this id, or `NotFound`.
    pub fn get_by_id(&self, id: i32) -> (r: Result<Model, StoreError>)
        requires
            self@.inv(),
        ensures
            match r {
                Ok(rec) => self@.has_id(id as int) && rec == self@.rec_of_id(id as int),
                Err(e) => e == StoreError::NotFound && !self@.has_id(id as int),
            },
    {
        match self.find_index_by_id(id) {
            Some(i) => Ok(self.records[i].duplicate()),
            None => Err(StoreError::NotFound),
        }
    }

    /// Returns a copy of the row with this network instance id (through the
    /// unique index), or `NotFound`.
    pub fn get_by_network_instance_id(&self, network_instance_id: &String) -> (r: Result<
        Model,
        StoreError,
    >)
        requires
            self@.inv(),
        ensures
            match r {
                Ok(rec) => self@.has_instance_id(network_instance_id@) && rec
                    == self@.rec_of_instance_id(network_instance_id@),
                Err(e) => e == StoreError::NotFound && !self@.has_instance_id(
                    network_instance_id@,
                ),
            },
    {
        let mut i: usize = 0;
        while i < self.records.len()
            invariant
                self@.inv(),
                i <= self@.recs.len(),
                forall|k: int|
                    0 <= k < i ==> self@.recs[k].network_instance_id@ != network_instance_id@,
            decreases self@.recs.len() - i,
        {
            if self.records[i].network_instance_id == *network_instance_id {
                proof {
                    let j = self@.idx_of_instance_id(network_instance_id@);
                    assert(0 <= j < self@.recs.len() && self@.recs[j].network_instance_id@
                        == network_instance_id@);
                }
                return Ok(self.records[i].duplicate());
            }
            i = i + 1;
        }
        Err(StoreError::NotFound)
    }

    /// Copies of all rows owned by this user, in insertion order.
    pub fn list_by_user(&self, user_id: i32) -> (r: Vec<Model>)
        requires
            self@.inv(),
        ensures
            r@ == self@.recs.filter(owned_by(user_id)),
    {
        let mut out: Vec<Model> = Vec::new();
        let mut i: usize = 0;
        proof {
            reveal(Seq::filter);
            assert(self@.recs.take(0) =~= Seq::<Model>::empty());
        }
        while i < self.records.len()
            invariant
                i <= self@.recs.len(),
                out@ == self@.recs.take(i as int).filter(owned_by(user_id)),
            decreases self@.recs.len() - i,
        {
            proof {
                lemma_filter_push(self@.recs.take(i as int), self@.recs[i as int], owned_by(user_id));
                assert(self@.recs.take(i as int).push(self@.recs[i as int]) =~= self@.recs.take(
                    i as int + 1,
                ));
            }
            if self.records[i].user_id == user_id {
                out.push(self.records[i].duplicate());
            }
            i = i + 1;
        }
        proof {
            assert(self@.recs.take(self@.recs.len() as int) =~= self@.recs);
        }
        out
    }

    /// Removes the row with this id; the users and every other row stay.
    pub fn delete(&mut self, id: i32) -> (r: Result<(), StoreError>)
        requires
            old(self)@.inv(),
        ensures
            final(self)@.inv(),
            final(self)@.users == old(self)@.users,
            final(self)@.next_id == old(self)@.next_id,
            old(self)@.has_id(id as int) ==> r == Ok::<(), StoreError>(()) && final(self)@.recs
                == old(self)@.recs.filter(other_ids(id)),
            !old(self)@.has_id(id as int) ==> r == Err::<(), StoreError>(StoreError::NotFound)
                && final(self)@ == old(self)@,
    {
        match self.find_index_by_id(id) {
            Some(_) => {},
            None => {
                return Err(StoreError::NotFound);
            },
        }
        let kept = self.rows_without(id);
        self.records = kept;
        proof {
            let pre = old(self)@;
            let post = self@;
            lemma_filter_contained(pre.recs, other_ids(id));
            lemma_filter_distinct_keys(pre.recs, other_ids(id), |m: Model| m.id);
            lemma_filter_distinct_keys(
                pre.recs,
                other_ids(id),
                |m: Model| m.network_instance_id@,
            );
            assert forall|i: int| 0 <= i < post.recs.len() implies post.row_ok(
                #[trigger] post.recs[i],
            ) by {
                assert(pre.recs.contains(post.recs[i]));
                let w = choose|w: int| 0 <= w < pre.recs.len() && pre.recs[w] == post.recs[i];
                assert(pre.row_ok(pre.recs[w]));
                let u = choose|k: int|
                    0 <= k < pre.users.len() && pre.users[k] as int == pre.recs[w].user_id as int;
                assert(post.users[u] as int == post.recs[i].user_id as int);
            }
        }
        Ok(())
    }

    /// Copies of all rows whose id differs from the given one.
    fn rows_without(&self, id: i32) -> (r: Vec<Model>)
        ensures
            r@ == self@.recs.filter(other_ids(id)),
    {
        let mut out: Vec<Model> = Vec::new();
        let mut i: usize = 0;
        proof {
            reveal(Seq::filter);
            assert(self@.recs.take(0) =~= Seq::<Model>::empty());
        }
        while i < self.records.len()
            invariant
                i <= self@.recs.len(),
                out@ == self@.recs.take(i as int).filter(other_ids(id)),
            decreases self@.recs.len() - i,
        {
            proof {
                lemma_filter_push(self@.recs.take(i as int), self@.recs[i as int], other_ids(id));
                assert(self@.recs.take(i as int).push(self@.recs[i as int]) =~= self@.recs.take(
                    i as int + 1,
                ));
            }
            if self.records[i].id != id {
                out.push(self.records[i].duplicate());
            }
            i = i + 1;
        }
        proof {
            assert(self@.recs.take(self@.recs.len() as int) =~= self@.recs);
        }
        out
    }

    /// Deletes a user and cascades: every row owned by the user goes with
    /// it, in one step. Reports whether the user existed.
    pub fn delete_user(&mut self, user_id: i32) -> (r: bool)
        requires
            old(self)@.inv(),
        ensures
            final(self)@.inv(),
            r == old(self)@.has_user(user_id as int),
            final(self)@.users == old(self)@.users.filter(other_users(user_id)),
            final(self)@.recs == old(self)@.recs.filter(not_owned_by(user_id)),
            final(self)@.next_id == old(self)@.next_id,
    {
        let existed = self.user_exists(user_id);
        let mut kept_users: Vec<i32> = Vec::new();
        let mut i: usize = 0;
        proof {
            reveal(Seq::filter);
            assert(self@.users.take(0) =~= Seq::<i32>::empty());
        }
        while i < self.users.len()
            invariant
                i <= self@.users.len(),
                kept_users@ == self@.users.take(i as int).filter(other_users(user_id)),
            decreases self@.users.len() - i,
        {
            proof {
                lemma_filter_push(
                    self@.users.take(i as int),
                    self@.users[i as int],
                    other_users(user_id),
                );
                assert(self@.users.take(i as int).push(self@.users[i as int]) =~= self@.users.take(
                    i as int + 1,
                ));
            }
            if self.users[i] != user_id {
                kept_users.push(self.users[i]);
            }
            i = i + 1;
        }
        proof {
            assert(self@.users.take(self@.users.len() as int) =~= self@.users);
        }
        let mut kept_recs: Vec<Model> = Vec::new();
        let mut j: usize = 0;
        proof {
            assert(self@.recs.take(0) =~= Seq::<Model>::empty());
        }
        while j < self.records.len()
            invariant
                j <= self@.recs.len(),
                kept_recs@ == self@.recs.take(j as int).filter(not_owned_by(user_id)),
            decreases self@.recs.len() - j,
        {
            proof {
                lemma_filter_push(
                    self@.recs.take(j as int),
                    self@.recs[j as int],
                    not_owned_by(user_id),
                );
                assert(self@.recs.take(j as int).push(self@.recs[j as int]) =~= self@.recs.take(
                    j as int + 1,
                ));
            }
            if self.records[j].user_id != user_id {
                kept_recs.push(self.records[j].duplicate());
            }
            j = j + 1;
        }
        proof {
            assert(self@.recs.take(self@.recs.len() as int) =~= self@.recs);
        }
        self.users = kept_users;
        self.records = kept_recs;
        proof {
            let pre = old(self)@;
            let post = self@;
            lemma_filter_contained(pre.users, other_users(user_id));
            lemma_filter_distinct_keys(pre.users, other_users(user_id), |u: i32| u);
            lemma_filter_contained(pre.recs, not_owned_by(user_id));
            lemma_filter_distinct_keys(pre.recs, not_owned_by(user_id), |m: Model| m.id);
            lemma_filter_distinct_keys(
                pre.recs,
                not_owned_by(user_id),
                |m: Model| m.network_instance_id@,
            );
            assert forall|i2: int| 0 <= i2 < post.recs.len() implies post.row_ok(
                #[trigger] post.recs[i2],
            ) by {
                assert(pre.recs.contains(post.recs[i2]));
                let w = choose|w: int| 0 <= w < pre.recs.len() && pre.recs[w] == post.recs[i2];
                assert(pre.row_ok(pre.recs[w]));
                assert((not_owned_by(user_id))(post.recs[i2]));
                let u = choose|k: int|
                    0 <= k < pre.users.len() && pre.users[k] as int == pre.recs[w].user_id as int;
                assert((other_users(user_id))(pre.users[u]));
                assert(pre.users.filter(other_users(user_id)).contains(pre.users[u]));
                let k2 = choose|k2: int|
                    0 <= k2 < post.users.len() && post.users[k2] == pre.users[u];
                assert(post.users[k2] as int == post.recs[i2].user_id as int);
            }
        }
        existed
    }

    /// Renumbers a user and cascades: every row owned under the old id is
    /// re-owned under the new one, as a storage engine's cascade-on-update
    /// does when the referenced primary key changes. Fails with `NotFound`
    /// when the old id is unknown, and with `UniqueConstraintViolation` when
    /// the new id already names another user.
    pub fn rename_user(&mut self, old_user_id: i32, new_user_id: i32) -> (r: Result<
        (),
        StoreError,
    >)
        requires
            old(self)@.inv(),
        ensures
            final(self)@.inv(),
            final(self)@.next_id == old(self)@.next_id,
            !old(self)@.has_user(old_user_id as int) ==> r == Err::<(), StoreError>(
                StoreError::NotFound,
            ) && final(self)@ == old(self)@,
            old(self)@.has_user(old_user_id as int) && old(self)@.has_user(new_user_id as int)
                && new_user_id != old_user_id ==> r == Err::<(), StoreError>(
                StoreError::UniqueConstraintViolation,
            ) && final(self)@ == old(self)@,
            old(self)@.has_user(old_user_id as int) && (!old(self)@.has_user(new_user_id as int)
                || new_user_id == old_user_id) ==> {
                &&& r == Ok::<(), StoreError>(())
                &&& final(self)@.users == old(self)@.users.map_values(
                    renamed_user(old_user_id, new_user_id),
                )
                &&& final(self)@.recs == old(self)@.recs.map_values(
                    renamed_row(old_user_id, new_user_id),
                )
            },
    {
        if !self.user_exists(old_user_id) {
            return Err(StoreError::NotFound);
        }
        if new_user_id != old_user_id && self.user_exists(new_user_id) {
            return Err(StoreError::UniqueConstraintViolation);
        }
        let mut new_users: Vec<i32> = Vec::new();
        let mut i: usize = 0;
        while i < self.users.len()
            invariant
                i <= self@.users.len(),
                new_users@.len() == i as int,
                forall|k: int|
                    0 <= k < i ==> new_users@[k] == (renamed_user(old_user_id, new_user_id))(
                        self@.users[k],
                    ),
            decreases self@.users.len() - i,
        {
            if self.users[i] == old_user_id {
                new_users.push(new_user_id);
            } else {
                new_users.push(self.users[i]);
            }
            i = i + 1;
        }
        let mut new_recs: Vec<Model> = Vec::new();
        let mut j: usize = 0;
        while j < self.records.len()
            invariant
                j <= self@.recs.len(),
                new_recs@.len() == j as int,
                forall|k: int|
                    0 <= k < j ==> new_recs@[k] == (renamed_row(old_user_id, new_user_id))(
                        self@.recs[k],
                    ),
            decreases self@.recs.len() - j,
        {
            let new_owner = if self.records[j].user_id == old_user_id {
                new_user_id
            } else {
                self.records[j].user_id
            };
            let patched = Model {
                id: self.records[j].id,
                user_id: new_owner,
                network_instance_id: self.records[j].network_instance_id.clone(),
                network_config: self.records[j].network_config.clone(),
                disabled: self.records[j].disabled,
                create_time: self.records[j].create_time,
                update_time: self.records[j].update_time,
            };
            new_recs.push(patched);
            j = j + 1;
        }
        self.users = new_users;
        self.records = new_recs;
        proof {
            let pre = old(self)@;
            let post = self@;
            let fu = renamed_user(old_user_id, new_user_id);
            let fr = renamed_row(old_user_id, new_user_id);
            assert(post.users =~= pre.users.map_values(fu));
            assert(post.recs =~= pre.recs.map_values(fr));
            assert forall|a: int, b: int|
                0 <= a < post.users.len() && 0 <= b < post.users.len() && a
                    != b implies post.users[a] != post.users[b] by {
                assert(pre.users[a] != pre.users[b]);
                if new_user_id != old_user_id {
                    if pre.users[a] == old_user_id {
                        assert(pre.users[b] as int != new_user_id as int);
                    } else if pre.users[b] == old_user_id {
                        assert(pre.users[a] as int != new_user_id as int);
                    }
                }
            }
            assert forall|a: int, b: int|
                0 <= a < post.recs.len() && 0 <= b < post.recs.len() && a
                    != b implies post.recs[a].id != post.recs[b].id by {
                assert(pre.recs[a].id != pre.recs[b].id);
                assert(post.recs[a].id == pre.recs[a].id);
                assert(post.recs[b].id == pre.recs[b].id);
            }
            assert forall|a: int, b: int|
                0 <= a < post.recs.len() && 0 <= b < post.recs.len() && a
                    != b implies post.recs[a].network_instance_id@
                != post.recs[b].network_instance_id@ by {
                assert(pre.recs[a].network_instance_id@ != pre.recs[b].network_instance_id@);
                assert(post.recs[a].network_instance_id@ == pre.recs[a].network_instance_id@);
                assert(post.recs[b].network_instance_id@ == pre.recs[b].network_instance_id@);
            }
            assert forall|a: int| 0 <= a < post.recs.len() implies post.row_ok(
                #[trigger] post.recs[a],
            ) by {
                assert(pre.row_ok(pre.recs[a]));
                if pre.recs[a].user_id == old_user_id {
                    let w = choose|k: int|
                        0 <= k < pre.users.len() && pre.users[k] as int == old_user_id as int;
                    assert(post.users[w] == new_user_id);
                    assert(post.recs[a].user_id == new_user_id);
                } else {
                    let w = choose|k: int|
                        0 <= k < pre.users.len() && pre.users[k] as int == pre.recs[a].user_id as int;
                    assert(post.users[w] as int == post.recs[a].user_id as int);
                }
            }
        }
        Ok(())
    }

    /// Rewrites the mutable fields of the row with this id — the payload
    /// and/or the disabled flag, each only where a value is given — and
    /// refreshes its `update_time`, which never goes backwards even when the
    /// clock does. The id, owner, network instance id and `create_time` stay.
    /// Returns a copy of the row as stored afterwards, or `NotFound`.
    pub fn update(
        &mut self,
        id: i32,
        network_config: Option<String>,
        disabled: Option<bool>,
        now: i64,
    ) -> (r: Result<Model, StoreError>)
        requires
            old(self)@.inv(),
        ensures
            final(self)@.inv(),
            final(self)@.users == old(self)@.users,
            final(self)@.next_id == old(self)@.next_id,
            !old(self)@.has_id(id as int) ==> r == Err::<Model, StoreError>(StoreError::NotFound)
                && final(self)@ == old(self)@,
            old(self)@.has_id(id as int) ==> {
                let prev = old(self)@.rec_of_id(id as int);
                &&& r is Ok
                &&& r->Ok_0@ == (ModelView {
                    id: prev.id as int,
                    user_id: prev.user_id as int,
                    network_instance_id: prev.network_instance_id@,
                    network_config: match network_config {
                        Some(c) => c@,
                        None => prev.network_config@,
                    },
                    disabled: match disabled {
                        Some(d) => d,
                        None => prev.disabled,
                    },
                    create_time: prev.create_time as int,
                    update_time: if now > prev.update_time {
                        now as int
                    } else {
                        prev.update_time as int
                    },
                })
                &&& r->Ok_0.update_time >= prev.update_time
                &&& final(self)@.recs == old(self)@.recs.update(
                    old(self)@.idx_of_id(id as int),
                    r->Ok_0,
                )
            },
    {
        let idx = match self.find_index_by_id(id) {
            Some(i) => i,
            None => {
                return Err(StoreError::NotFound);
            },
        };
        let new_config = match network_config {
            Some(c) => c,
            None => self.records[idx].network_config.clone(),
        };
        let new_disabled = match disabled {
            Some(d) => d,
            None => self.records[idx].disabled,
        };
        let new_update_time = if now > self.records[idx].update_time {
            now
        } else {
            self.records[idx].update_time
        };
        let new_rec = Model {
            id: self.records[idx].id,
            user_id: self.records[idx].user_id,
            network_instance_id: self.records[idx].network_instance_id.clone(),
            network_config: new_config,
            disabled: new_disabled,
            create_time: self.records[idx].create_time,
            update_time: new_update_time,
        };
        let out = new_rec.duplicate();
        self.records[idx] = new_rec;
        proof {
            let pre = old(self)@;
            let post = self@;
            assert forall|i: int, j: int|
                0 <= i < post.recs.len() && 0 <= j < post.recs.len() && i
                    != j implies post.recs[i].id != post.recs[j].id by {
                assert(pre.recs[i].id != pre.recs[j].id);
                assert(post.recs[i].id == pre.recs[i].id);
                assert(post.recs[j].id == pre.recs[j].id);
            }
            assert forall|i: int, j: int|
                0 <= i < post.recs.len() && 0 <= j < post.recs.len() && i
                    != j implies post.recs[i].network_instance_id@
                != post.recs[j].network_instance_id@ by {
                assert(pre.recs[i].network_instance_id@ != pre.recs[j].network_instance_id@);
                assert(post.recs[i].network_instance_id@ == pre.recs[i].network_instance_id@);
                assert(post.recs[j].network_instance_id@ == pre.recs[j].network_instance_id@);
            }
            assert forall|i: int| 0 <= i < post.recs.len() implies post.row_ok(
                #[trigger] post.recs[i],
            ) by {
                assert(pre.row_ok(pre.recs[i]));
                let w = choose|k: int|
                    0 <= k < pre.users.len() && pre.users[k] as int == pre.recs[i].user_id as int;
                assert(post.users[w] as int == post.recs[i].user_id as int);
            }
        }
        Ok(out)
    }
}

/// Every element of a filtered sequence comes from the original sequence.
pub proof fn lemma_filter_contained<A>(s: Seq<A>, pred: spec_fn(A) -> bool)
    ensures
        forall|i: int| 0 <= i < s.filter(pred).len() ==> s.contains(#[trigger] s.filter(pred)[i]),
    decreases s.len(),
{
    reveal(Seq::filter);
    if s.len() > 0 {
        let sub = s.drop_last();
        lemma_filter_contained(sub, pred);
        assert forall|i: int| 0 <= i < s.filter(pred).len() implies s.contains(
            #[trigger] s.filter(pred)[i],
        ) by {
            if i < sub.filter(pred).len() {
                assert(sub.contains(sub.filter(pred)[i]));
                let j = choose|j: int| 0 <= j < sub.len() && sub[j] == sub.filter(pred)[i];
                assert(s[j] == s.filter(pred)[i]);
            } else {
                assert(s[s.len() - 1] == s.filter(pred)[i]);
            }
        }
    }
}

/// Filtering keeps a key's uniqueness: if no two elements share a key, no
/// two elements of the filtered sequence do either.
pub proof fn lemma_filter_distinct_keys<A, K>(
    s: Seq<A>,
    pred: spec_fn(A) -> bool,
    key: spec_fn(A) -> K,
)
    requires
        forall|i: int, j: int|
            0 <= i < s.len() && 0 <= j < s.len() && i != j ==> key(s[i]) != key(s[j]),
    ensures
        forall|i: int, j: int|
            0 <= i < s.filter(pred).len() && 0 <= j < s.filter(pred).len() && i != j ==> key(
                s.filter(pred)[i],
            ) != key(s.filter(pred)[j]),
    decreases s.len(),
{
    reveal(Seq::filter);
    if s.len() > 0 {
        let sub = s.drop_last();
        assert(forall|i: int, j: int|
            0 <= i < sub.len() && 0 <= j < sub.len() && i != j ==> key(sub[i]) != key(sub[j]));
        lemma_filter_distinct_keys(sub, pred, key);
        lemma_filter_contained(sub, pred);
        let f = s.filter(pred);
        let fs = sub.filter(pred);
        assert forall|i: int, j: int|
            0 <= i < f.len() && 0 <= j < f.len() && i != j implies key(f[i]) != key(f[j]) by {
            if i < fs.len() && j < fs.len() {
                assert(key(fs[i]) != key(fs[j]));
            } else if i < fs.len() {
                assert(sub.contains(fs[i]));
                let w = choose|w: int| 0 <= w < sub.len() && sub[w] == fs[i];
                assert(key(s[w]) != key(s[s.len() - 1]));
            } else if j < fs.len() {
                assert(sub.contains(fs[j]));
                let w = choose|w: int| 0 <= w < sub.len() && sub[w] == fs[j];
                assert(key(s[w]) != key(s[s.len() - 1]));
            }
        }
    }
}

/// Filtering one more element keeps the filter's recurrence: the element is
/// appended to the filtered sequence exactly when it satisfies the predicate.
pub proof fn lemma_filter_push<A>(s: Seq<A>, x: A, pred: spec_fn(A) -> bool)
    ensures
        s.push(x).filter(pred) == if pred(x) {
            s.filter(pred).push(x)
        } else {
            s.filter(pred)
        },
{
    reveal(Seq::filter);
    assert(s.push(x).drop_last() =~= s);
    assert(s.push(x).last() == x);
}

} // verus!
