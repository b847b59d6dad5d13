//! Properties of the store's operations, each proved once over the model:
//! the create/delete round trip, idempotence of listing, and the reuse of a
//! name after deletion.

use vstd::prelude::*;
use crate::naming::{
    valid_name, file_name_of, is_workspace_file, stem_of, lemma_file_name_of_stem,
    lemma_stem_file_name,
};
use crate::model::{
    StoreError, EntryView, WorkspaceView, StoreView, is_ws_entry, to_workspace, keeps,
    lemma_filter_push, lemma_filter_subset,
};

verus! {

broadcast use vstd::seq_lib::group_filter_ensures;

/// Picks the listed workspaces that carry the name `n`.
pub open spec fn named(n: Seq<char>) -> spec_fn(WorkspaceView) -> bool {
    |w: WorkspaceView| w.name == n
}

/// How many of the listed workspaces carry the name `n`.
pub open spec fn named_count(ws: Seq<WorkspaceView>, n: Seq<char>) -> nat {
    ws.filter(named(n)).len()
}

/// The (name, path) pairs of a listing.
pub open spec fn name_path_pairs(ws: Seq<WorkspaceView>) -> Seq<(Seq<char>, Seq<char>)> {
    ws.map_values(|w: WorkspaceView| (w.name, w.path))
}

/// No listed workspace of a store carries the name `n` unless some entry
/// backs it: a store without the file `n.db` lists no workspace named `n`.
proof fn lemma_no_file_no_listing(s: StoreView, n: Seq<char>)
    requires
        s.wf(),
        n.len() > 0,
        !s.has_file(file_name_of(n)),
        s.list_result() is Ok,
    ensures
        named_count(s.list_result()->Ok_0, n) == 0,
{
    let listed = s.list_result()->Ok_0;
    if s.dir_exists {
        let we = s.workspace_entries();
        lemma_filter_subset(s.entries, is_ws_entry());
        assert forall|j: int| 0 <= j < listed.len() implies !named(n)(#[trigger] listed[j]) by {
            if listed[j].name == n {
                let e = we[j];
                assert(is_ws_entry()(e));
                assert(listed[j] == to_workspace(s.trees_dir)(e));
                assert(stem_of(e.file_name) == n);
                lemma_stem_file_name(e.file_name);
                assert(e.file_name == file_name_of(n));
                assert(s.entries.contains(e));
                let k = choose|k: int| 0 <= k < s.entries.len() && s.entries[k] == e;
                assert(s.entries[k].file_name == file_name_of(n));
            }
        }
        assert(listed.all(|w: WorkspaceView| !named(n)(w)));
        listed.lemma_all_neg_filter_empty(named(n));
    } else {
        assert(listed.filter(named(n)) =~= Seq::<WorkspaceView>::empty());
    }
}

/// Round trip, creation half: after a successful create of the name `n`,
/// listing succeeds and reports exactly one workspace named `n`. (The
/// store's workspace files must all carry readable metadata, or listing
/// refuses as a whole.)
pub proof fn lemma_create_then_list(s: StoreView, n: Seq<char>, now: u64)
    requires
        s.wf(),
        s.all_metadata_present(),
        s.create_result(n, now) is Ok,
    ensures
        s.create_post(n, now).list_result() is Ok,
        named_count(s.create_post(n, now).list_result()->Ok_0, n) == 1,
{
    let post = s.create_post(n, now);
    let f = file_name_of(n);
    let e = EntryView { file_name: f, size: 0, created: Some(now) };
    assert(valid_name(n));
    lemma_file_name_of_stem(n);
    assert(post.entries == s.entries.push(e));
    lemma_filter_push(s.entries, is_ws_entry(), e);
    assert(post.workspace_entries() == s.workspace_entries().push(e));
    assert forall|i: int|
        0 <= i < post.entries.len() && is_workspace_file(#[trigger] post.entries[i].file_name)
            implies post.entries[i].created is Some by {
        if i < s.entries.len() {
            assert(post.entries[i] == s.entries[i]);
        } else {
            assert(post.entries[i] == e);
        }
    }
    assert(post.all_metadata_present());
    assert(post.dir_exists);
    let g = to_workspace(post.trees_dir);
    let listed = post.list_result()->Ok_0;
    let prior = s.workspace_entries().map_values(g);
    assert(listed =~= prior.push(g(e)));
    // Nothing listed from the prior entries carries the name `n`.
    lemma_filter_subset(s.entries, is_ws_entry());
    assert forall|j: int| 0 <= j < prior.len() implies !named(n)(#[trigger] prior[j]) by {
        if prior[j].name == n {
            let we = s.workspace_entries()[j];
            assert(is_ws_entry()(we));
            assert(prior[j] == g(we));
            assert(stem_of(we.file_name) == n);
            lemma_stem_file_name(we.file_name);
            assert(we.file_name == f);
            assert(s.entries.contains(we));
            let k = choose|k: int| 0 <= k < s.entries.len() && s.entries[k] == we;
            assert(s.entries[k].file_name == f);
            assert(s.has_file(f));
        }
    }
    assert(prior.all(|w: WorkspaceView| !named(n)(w)));
    prior.lemma_all_neg_filter_empty(named(n));
    lemma_filter_push(prior, named(n), g(e));
    assert(g(e).name == n);
    assert(listed.filter(named(n)) == prior.filter(named(n)).push(g(e)));
}

/// Round trip, deletion half: after a successful delete of the name `n`,
/// listing succeeds and reports no workspace named `n`.
pub proof fn lemma_delete_then_list(s: StoreView, n: Seq<char>)
    requires
        s.wf(),
        s.all_metadata_present(),
        s.delete_result(n) is Ok,
    ensures
        s.delete_post(n).list_result() is Ok,
        named_count(s.delete_post(n).list_result()->Ok_0, n) == 0,
{
    let post = s.delete_post(n);
    let f = file_name_of(n);
    assert(post.entries == s.entries.filter(keeps(f)));
    lemma_filter_subset(s.entries, keeps(f));
    assert forall|i: int|
        0 <= i < post.entries.len() && is_workspace_file(#[trigger] post.entries[i].file_name)
            implies post.entries[i].created is Some by {
        assert(s.entries.contains(post.entries[i]));
        let k = choose|k: int| 0 <= k < s.entries.len() && s.entries[k] == post.entries[i];
        assert(is_workspace_file(s.entries[k].file_name));
    }
    assert(post.all_metadata_present());
    assert(!post.has_file(f)) by {
        if post.has_file(f) {
            let k = choose|k: int|
                0 <= k < post.entries.len() && post.entries[k].file_name == f;
            assert(keeps(f)(post.entries[k]));
        }
    }
    assert forall|i: int, j: int|
        0 <= i < post.entries.len() && 0 <= j < post.entries.len() && i != j
            implies post.entries[i].file_name != post.entries[j].file_name by {
        lemma_filter_distinct(s.entries, keeps(f), i, j);
    }
    assert forall|i: int|
        0 <= i < post.entries.len() implies valid_name(#[trigger] post.entries[i].file_name) by {
        assert(s.entries.contains(post.entries[i]));
        let k = choose|k: int| 0 <= k < s.entries.len() && s.entries[k] == post.entries[i];
        assert(valid_name(s.entries[k].file_name));
    }
    assert(post.wf());
    if post.list_result() is Ok {
        lemma_no_file_no_listing(post, n);
    }
}

/// Distinct positions of a filtered sequence of entries hold entries that a
/// well-formed store keeps distinct.
proof fn lemma_filter_distinct(s: Seq<EntryView>, pred: spec_fn(EntryView) -> bool, i: int, j: int)
    requires
        forall|a: int, b: int|
            0 <= a < s.len() && 0 <= b < s.len() && a != b ==> s[a].file_name != s[b].file_name,
        0 <= i < s.filter(pred).len(),
        0 <= j < s.filter(pred).len(),
        i != j,
    ensures
        s.filter(pred)[i].file_name != s.filter(pred)[j].file_name,
    decreases s.len(),
{
    reveal(Seq::filter);
    if s.len() > 0 {
        let rest = s.drop_last();
        let out = s.filter(pred);
        if pred(s.last()) {
            assert(out == rest.filter(pred).push(s.last()));
            if i < rest.filter(pred).len() && j < rest.filter(pred).len() {
                lemma_filter_distinct(rest, pred, i, j);
            } else {
                let low = if i < j { i } else { j };
                assert(out[low] == rest.filter(pred)[low]);
                lemma_filter_subset(rest, pred);
                assert(rest.contains(rest.filter(pred)[low]));
                let k = choose|k: int|
                    0 <= k < rest.len() && rest[k] == rest.filter(pred)[low];
                assert(s[k] == out[low]);
                assert(s[k].file_name != s.last().file_name);
            }
        } else {
            assert(out == rest.filter(pred));
            lemma_filter_distinct(rest, pred, i, j);
        }
    }
}

/// Listing is a pure read: listing the same store twice yields the same
/// outcome, and in particular identical (name, path) pairs.
pub proof fn lemma_list_idempotent(
    s: StoreView,
    r1: Result<Seq<WorkspaceView>, StoreError>,
    r2: Result<Seq<WorkspaceView>, StoreError>,
)
    requires
        r1 == s.list_result(),
        r2 == s.list_result(),
    ensures
        r1 == r2,
        r1 matches Ok(ws1) ==> (r2 matches Ok(ws2) && name_path_pairs(ws1) == name_path_pairs(
            ws2,
        )),
{
}

/// A name freed by delete is at once available again: creating it after a
/// successful delete succeeds, and allocates a fresh zero-length file.
pub proof fn lemma_name_reuse(s: StoreView, n: Seq<char>, now: u64)
    requires
        s.wf(),
        s.delete_result(n) is Ok,
    ensures
        s.delete_post(n).create_result(n, now) is Ok,
        s.delete_post(n).create_post(n, now).entries.last() == (EntryView {
            file_name: file_name_of(n),
            size: 0,
            created: Some(now),
        }),
{
    let post = s.delete_post(n);
    let f = file_name_of(n);
    assert(valid_name(n));
    assert(!post.has_file(f)) by {
        if post.has_file(f) {
            let k = choose|k: int|
                0 <= k < post.entries.len() && post.entries[k].file_name == f;
            assert(keeps(f)(post.entries[k]));
        }
    }
}

} // verus!
