use vstd::prelude::*;
use vstd::seq_lib::group_filter_ensures;

use crate::model::Model;
use crate::store::StoreView;
use crate::store::lemma_filter_contained;
use crate::store::not_owned_by;
use crate::store::owned_by;

verus! {

broadcast use group_filter_ensures;

/// Law: a row accepted by `create` is found again under its fresh id, field
/// for field. `create`'s contract appends a row carrying the given fields
/// and the id `next_id`; this lemma adds that in the resulting store that id
/// resolves to exactly that row, which is what `get_by_id`'s contract then
/// returns.
pub proof fn lemma_created_record_is_found(pre: StoreView, post: StoreView, rec: Model)
    requires
        pre.inv(),
        rec.id as int == pre.next_id,
        post.recs == pre.recs.push(rec),
    ensures
        post.has_id(rec.id as int),
        post.rec_of_id(rec.id as int) == rec,
{
    let n = pre.recs.len() as int;
    assert(post.recs[n] == rec);
    assert(post.has_id(rec.id as int));
    assert forall|i: int|
        0 <= i < post.recs.len() && post.recs[i].id as int == rec.id as int implies post.recs[i]
        == rec by {
        if i < n {
            assert(pre.row_ok(pre.recs[i]));
        }
    }
    let j = post.idx_of_id(rec.id as int);
    assert(0 <= j < post.recs.len() && post.recs[j].id as int == rec.id as int);
}

/// Law: the network instance id of a row appended by a successful `create`
/// is taken afterwards. Together with `create`'s contract this makes a
/// second create with the same `network_instance_id` — under any user —
/// fail with `UniqueConstraintViolation` and leave the store, the first
/// row included, unchanged.
pub proof fn lemma_instance_id_taken(pre: StoreView, post: StoreView, rec: Model)
    requires
        post.recs == pre.recs.push(rec),
    ensures
        post.has_instance_id(rec.network_instance_id@),
{
    let n = pre.recs.len() as int;
    assert(post.recs[n] == rec);
}

/// Law: cascade deletion clears a user out. `delete_user(u)`'s contract
/// leaves exactly the rows not owned by `u`; this lemma adds that afterwards
/// the id of any row `u` owned no longer resolves (`get_by_id` returns
/// `NotFound`) and that the rows owned by `u` — what `list_by_user(u)`
/// returns — are none.
pub proof fn lemma_cascade_clears_user(pre: StoreView, post: StoreView, user_id: i32, id: int)
    requires
        pre.inv(),
        post.recs == pre.recs.filter(not_owned_by(user_id)),
        pre.has_id(id),
        pre.rec_of_id(id).user_id == user_id,
    ensures
        !post.has_id(id),
        post.recs.filter(owned_by(user_id)) == Seq::<Model>::empty(),
{
    lemma_filter_contained(pre.recs, not_owned_by(user_id));
    let j = pre.idx_of_id(id);
    assert(0 <= j < pre.recs.len() && pre.recs[j].id as int == id);
    assert forall|i: int| 0 <= i < post.recs.len() implies post.recs[i].id as int != id by {
        assert(pre.recs.contains(post.recs[i]));
        let w = choose|w: int| 0 <= w < pre.recs.len() && pre.recs[w] == post.recs[i];
        assert((not_owned_by(user_id))(post.recs[i]));
        if pre.recs[w].id as int == id {
            assert(w == j);
        }
    }
    let gone = post.recs.filter(owned_by(user_id));
    lemma_filter_contained(post.recs, owned_by(user_id));
    if gone.len() > 0 {
        assert((owned_by(user_id))(gone[0]));
        assert(post.recs.contains(gone[0]));
        let w = choose|w: int| 0 <= w < post.recs.len() && post.recs[w] == gone[0];
        assert((not_owned_by(user_id))(post.recs[w]));
        assert(false);
    }
    assert(gone =~= Seq::<Model>::empty());
}

} // verus!
