//! The external block sinks, keyed by block content id.

use vstd::prelude::*;

verus! {

/// One byte sink per open external block.
#[derive(Debug)]
pub struct ExternalDataWriters {
    /// The open blocks: content id and accumulated bytes.
    pub entries: Vec<(i32, Vec<u8>)>,
}

/// What a run of blocks denotes: content id to contents; a later block
/// under the same id would shadow an earlier one.
pub open spec fn edw_entries_view(s: Seq<(i32, Vec<u8>)>) -> Map<i32, Seq<u8>>
    decreases s.len(),
{
    if s.len() == 0 {
        Map::empty()
    } else {
        edw_entries_view(s.drop_last()).insert(s.last().0, s.last().1@)
    }
}

/// The sinks' mathematical shape.
pub open spec fn edw_view(w: &ExternalDataWriters) -> Map<i32, Seq<u8>> {
    edw_entries_view(w.entries@)
}

/// No two blocks share a content id.
pub open spec fn edw_wf(w: &ExternalDataWriters) -> bool {
    forall|i: int, j: int|
        0 <= i < j < w.entries@.len() ==> (#[trigger] w.entries@[i]).0 != (
        #[trigger] w.entries@[j]).0
}

/// A key is in the view exactly when some block carries it.
proof fn lemma_edw_dom(s: Seq<(i32, Vec<u8>)>, k: i32)
    ensures
        edw_entries_view(s).dom().contains(k) <==> exists|j: int|
            0 <= j < s.len() && (#[trigger] s[j]).0 == k,
    decreases s.len(),
{
    if s.len() > 0 {
        lemma_edw_dom(s.drop_last(), k);
        assert(forall|j: int| 0 <= j < s.len() - 1 ==> #[trigger] s.drop_last()[j] == s[j]);
        if s.last().0 == k {
            assert((s[s.len() - 1]).0 == k);
        } else {
            if exists|j: int| 0 <= j < s.len() && (#[trigger] s[j]).0 == k {
                let j = choose|j: int| 0 <= j < s.len() && (#[trigger] s[j]).0 == k;
                assert(j < s.len() - 1);
                assert((s.drop_last()[j]).0 == k);
            }
        }
    }
}

/// With unique keys, the view at a key is that block's contents.
proof fn lemma_edw_at(s: Seq<(i32, Vec<u8>)>, j: int)
    requires
        0 <= j < s.len(),
        forall|a: int, b: int|
            0 <= a < b < s.len() ==> (#[trigger] s[a]).0 != (#[trigger] s[b]).0,
    ensures
        edw_entries_view(s).dom().contains(s[j].0),
        edw_entries_view(s)[s[j].0] == s[j].1@,
    decreases s.len(),
{
    if j == s.len() - 1 {
    } else {
        lemma_edw_at(s.drop_last(), j);
        assert(s.drop_last()[j] == s[j]);
    }
}

/// With unique keys, rewriting one block's contents is one map insert.
proof fn lemma_edw_update(s: Seq<(i32, Vec<u8>)>, j: int, v: Vec<u8>)
    requires
        0 <= j < s.len(),
        forall|a: int, b: int|
            0 <= a < b < s.len() ==> (#[trigger] s[a]).0 != (#[trigger] s[b]).0,
    ensures
        edw_entries_view(s.update(j, (s[j].0, v))) == edw_entries_view(s).insert(s[j].0, v@),
    decreases s.len(),
{
    let t = s.update(j, (s[j].0, v));
    if j == s.len() - 1 {
        assert(t.drop_last() =~= s.drop_last());
    } else {
        lemma_edw_update(s.drop_last(), j, v);
        assert(t.drop_last() =~= s.drop_last().update(j, (s[j].0, v)));
        assert(t.last() == s.last());
        assert(s.drop_last()[j] == s[j]);
        assert(edw_entries_view(t) =~= edw_entries_view(s).insert(s[j].0, v@));
    }
}

impl ExternalDataWriters {
    /// No blocks open.
    pub fn new() -> (w: ExternalDataWriters)
        ensures
            edw_wf(&w),
            edw_view(&w) == Map::<i32, Seq<u8>>::empty(),
    {
        ExternalDataWriters { entries: Vec::new() }
    }

    /// Opens a block for a fresh content id.
    pub fn add_block(&mut self, block_content_id: i32, buf: Vec<u8>)
        requires
            edw_wf(&*old(self)),
            !edw_view(&*old(self)).dom().contains(block_content_id),
        ensures
            edw_wf(&*final(self)),
            edw_view(&*final(self)) == edw_view(&*old(self)).insert(block_content_id, buf@),
    {
        proof {
            lemma_edw_dom(self.entries@, block_content_id);
        }
        self.entries.push((block_content_id, buf));
        proof {
            assert(self.entries@.drop_last() =~= old(self).entries@);
        }
    }

    /// Whether a block is open under this content id.
    #[verifier::loop_isolation(false)]
    pub fn has_block(&self, block_content_id: i32) -> (r: bool)
        ensures
            r == edw_view(self).dom().contains(block_content_id),
    {
        proof {
            lemma_edw_dom(self.entries@, block_content_id);
        }
        let mut j: usize = 0;
        while j < self.entries.len()
            invariant
                j <= self.entries@.len(),
                forall|a: int| 0 <= a < j ==> (#[trigger] self.entries@[a]).0 != block_content_id,
            decreases self.entries@.len() - j,
        {
            if self.entries[j].0 == block_content_id {
                return true;
            }
            j = j + 1;
        }
        false
    }

    /// Appends bytes to a block; reports whether the block was open.
    #[verifier::loop_isolation(false)]
    pub fn append_bytes(&mut self, block_content_id: i32, data: &[u8]) -> (ok: bool)
        requires
            edw_wf(&*old(self)),
        ensures
            edw_wf(&*final(self)),
            if edw_view(&*old(self)).dom().contains(block_content_id) {
                ok && edw_view(&*final(self)) == edw_view(&*old(self)).insert(
                    block_content_id,
                    edw_view(&*old(self))[block_content_id] + data@,
                )
            } else {
                !ok && *final(self) == *old(self)
            },
    {
        proof {
            lemma_edw_dom(self.entries@, block_content_id);
        }
        let mut j: usize = 0;
        while j < self.entries.len()
            invariant
                j <= self.entries@.len(),
                *self == *old(self),
                forall|a: int| 0 <= a < j ==> (#[trigger] self.entries@[a]).0 != block_content_id,
            decreases self.entries@.len() - j,
        {
            if self.entries[j].0 == block_content_id {
                proof {
                    lemma_edw_at(self.entries@, j as int);
                }
                let ghost s = self.entries@;
                self.entries[j].1.extend_from_slice(data);
                proof {
                    let t = self.entries@;
                    assert(t[j as int].0 == s[j as int].0);
                    assert(t[j as int].1@ == s[j as int].1@ + data@);
                    assert(t =~= s.update(j as int, (s[j as int].0, t[j as int].1)));
                    lemma_edw_update(s, j as int, t[j as int].1);
                }
                return true;
            }
            j = j + 1;
        }
        false
    }

    /// Appends one byte to a block; reports whether the block was open.
    #[verifier::loop_isolation(false)]
    pub fn append_byte(&mut self, block_content_id: i32, byte: u8) -> (ok: bool)
        requires
            edw_wf(&*old(self)),
        ensures
            edw_wf(&*final(self)),
            if edw_view(&*old(self)).dom().contains(block_content_id) {
                ok && edw_view(&*final(self)) == edw_view(&*old(self)).insert(
                    block_content_id,
                    edw_view(&*old(self))[block_content_id].push(byte),
                )
            } else {
                !ok && *final(self) == *old(self)
            },
    {
        proof {
            lemma_edw_dom(self.entries@, block_content_id);
        }
        let mut j: usize = 0;
        while j < self.entries.len()
            invariant
                j <= self.entries@.len(),
                *self == *old(self),
                forall|a: int| 0 <= a < j ==> (#[trigger] self.entries@[a]).0 != block_content_id,
            decreases self.entries@.len() - j,
        {
            if self.entries[j].0 == block_content_id {
                proof {
                    lemma_edw_at(self.entries@, j as int);
                }
                let ghost s = self.entries@;
                self.entries[j].1.push(byte);
                proof {
                    let t = self.entries@;
                    assert(t =~= s.update(j as int, (s[j as int].0, t[j as int].1)));
                    lemma_edw_update(s, j as int, t[j as int].1);
                }
                return true;
            }
            j = j + 1;
        }
        false
    }
}

} // verus!
