//! The offset index of the Warm tier.
//!
//! Warm vectors are appended to one file, each in a slot of `4 × dimension`
//! bytes; an index maps each point id to the offset of its slot. Removing a
//! vector only drops its index entry (the slot stays in the file until the
//! next compaction). After a crash, entries whose slot lies past the end of
//! the file are dropped, and bytes past the last slot are cut off. The file
//! I/O is done by the caller; this type decides the offsets.
use crate::assoc::{
    has_key, keys_distinct, kv_find, kv_map, kv_pairs, kv_remove, kv_upsert, lemma_to_map_dom,
    lemma_to_map_index, lemma_to_map_len, lemma_to_map_push, to_map,
};
use crate::error::FerresError;
use crate::text::push_str;
use vstd::prelude::*;

verus! {

/// Every slot of `vb` bytes at the offsets of `m` ends within `end`.
pub open spec fn all_fit(m: Map<Seq<char>, usize>, vb: nat, end: nat) -> bool {
    forall|k: Seq<char>| #[trigger] m.contains_key(k) ==> m[k] + vb <= end
}

/// No two slots of `vb` bytes at the offsets of `m` overlap.
pub open spec fn disjoint_slots(m: Map<Seq<char>, usize>, vb: nat) -> bool {
    forall|a: Seq<char>, b: Seq<char>|
        #[trigger] m.contains_key(a) && #[trigger] m.contains_key(b) && a != b ==> m[a] + vb <= m[b]
            || m[b] + vb <= m[a]
}

/// `after` is `before` without the entries whose slot of `vb` bytes does
/// not fit in a file of `file_len` bytes.
pub open spec fn recovered(
    before: Map<Seq<char>, usize>,
    after: Map<Seq<char>, usize>,
    vb: nat,
    file_len: nat,
) -> bool {
    &&& forall|k: Seq<char>|
        #[trigger] after.contains_key(k) <==> before.contains_key(k) && before[k] + vb <= file_len
    &&& forall|k: Seq<char>| #[trigger] after.contains_key(k) ==> after[k] == before[k]
}

/// `e` is where the last slot of `m` ends (0 when `m` is empty).
pub open spec fn slots_end(m: Map<Seq<char>, usize>, vb: nat, e: nat) -> bool {
    &&& all_fit(m, vb, e)
    &&& (forall|k: Seq<char>| !#[trigger] m.contains_key(k)) ==> e == 0
    &&& (exists|k: Seq<char>| #[trigger] m.contains_key(k)) ==> exists|k: Seq<char>|
        #[trigger] m.contains_key(k) && m[k] + vb == e
}

/// What crash recovery found and what the caller is to do.
pub struct WarmRecovery {
    /// Where the last slot still indexed ends.
    pub valid_end: usize,
    /// The length to cut the vectors file to, if it holds bytes past the
    /// last slot.
    pub truncate_to: Option<usize>,
    /// Whether the index on disk must be rewritten.
    pub index_changed: bool,
}

/// The offset index of the Warm tier's vectors file.
pub struct WarmIndex {
    offsets: Vec<(String, usize)>,
    slot: usize,
    end: usize,
}

impl View for WarmIndex {
    type V = Map<Seq<char>, usize>;

    /// Point id → offset of its slot.
    closed spec fn view(&self) -> Map<Seq<char>, usize> {
        kv_map(self.offsets@)
    }
}

fn located_error(prefix: &str, id: &str, suffix: &str) -> (e: FerresError)
    ensures
        e matches FerresError::Storage(m) && m@ == prefix@ + id@ + suffix@,
{
    let mut m = prefix.to_owned();
    push_str(&mut m, id);
    push_str(&mut m, suffix);
    FerresError::Storage(m)
}

impl WarmIndex {
    /// Bytes per slot.
    pub closed spec fn slot_bytes(&self) -> nat {
        self.slot as nat
    }

    /// Length of the vectors file, in bytes.
    pub closed spec fn file_end(&self) -> nat {
        self.end as nat
    }

    /// No id occurs twice.
    pub closed spec fn keys_ok(&self) -> bool {
        keys_distinct(kv_pairs(self.offsets@))
    }

    /// No id occurs twice and every slot lies within the file.
    pub closed spec fn wf(&self) -> bool {
        &&& keys_distinct(kv_pairs(self.offsets@))
        &&& all_fit(self@, self.slot as nat, self.end as nat)
    }

    /// An empty index for vectors of `dimension` components and an empty
    /// file.
    pub fn new(dimension: usize) -> (w: Self)
        requires
            dimension * 4 <= usize::MAX,
        ensures
            w.wf(),
            w@ == Map::<Seq<char>, usize>::empty(),
            w.slot_bytes() == dimension * 4,
            w.file_end() == 0,
    {
        let w = WarmIndex { offsets: Vec::new(), slot: dimension * 4, end: 0 };
        proof {
            assert(kv_pairs(w.offsets@) =~= Seq::empty());
            assert(w@ =~= Map::empty());
        }
        w
    }

    /// The index saved on disk as `entries` (a later entry for an id wins),
    /// checked against a vectors file of `file_len` bytes: see `recover`.
    pub fn load(dimension: usize, entries: &Vec<(String, usize)>, file_len: usize) -> (r: (
        Self,
        WarmRecovery,
    ))
        requires
            dimension * 4 <= usize::MAX,
        ensures
            r.0.wf(),
            r.0.slot_bytes() == dimension * 4,
            recovered(kv_map(entries@), r.0@, (dimension * 4) as nat, file_len as nat),
            slots_end(r.0@, (dimension * 4) as nat, r.1.valid_end as nat),
            r.1.truncate_to == (if file_len > r.1.valid_end && r.1.valid_end > 0 {
                Some(r.1.valid_end)
            } else {
                None
            }),
            r.0.file_end() == (if r.1.truncate_to is Some {
                r.1.valid_end as nat
            } else {
                file_len as nat
            }),
            r.1.index_changed == ((exists|k: Seq<char>|
                kv_map(entries@).contains_key(k) && !#[trigger] r.0@.contains_key(k))
                || r.1.truncate_to is Some),
    {
        let mut offsets: Vec<(String, usize)> = Vec::new();
        let mut i: usize = 0;
        proof {
            assert(kv_pairs(offsets@) =~= Seq::empty());
            assert(kv_pairs(entries@).take(0) =~= Seq::empty());
        }
        while i < entries.len()
            invariant
                i <= entries.len(),
                keys_distinct(kv_pairs(offsets@)),
                kv_map(offsets@) == to_map(kv_pairs(entries@).take(i as int)),
            decreases entries.len() - i,
        {
            kv_upsert(&mut offsets, entries[i].0.clone(), entries[i].1);
            proof {
                let p = kv_pairs(entries@);
                assert(p.take(i + 1).drop_last() =~= p.take(i as int));
                assert(p.take(i + 1).last() == (entries@[i as int].0@, entries@[i as int].1));
            }
            i += 1;
        }
        proof {
            assert(kv_pairs(entries@).take(entries.len() as int) =~= kv_pairs(entries@));
        }
        let mut w = WarmIndex { offsets, slot: dimension * 4, end: 0 };
        let rec = w.recover(file_len);
        (w, rec)
    }

    /// Crash recovery against a vectors file of `file_len` bytes: drops the
    /// entries whose slot does not fit in the file; when the file holds
    /// bytes past the last remaining slot (and some slot remains), it is to
    /// be cut there. The index must be rewritten when an entry was dropped
    /// or the file is cut.
    pub fn recover(&mut self, file_len: usize) -> (r: WarmRecovery)
        requires
            old(self).keys_ok(),
        ensures
            final(self).wf(),
            final(self).slot_bytes() == old(self).slot_bytes(),
            recovered(old(self)@, final(self)@, old(self).slot_bytes(), file_len as nat),
            slots_end(final(self)@, old(self).slot_bytes(), r.valid_end as nat),
            r.truncate_to == (if file_len > r.valid_end && r.valid_end > 0 {
                Some(r.valid_end)
            } else {
                None
            }),
            final(self).file_end() == (if r.truncate_to is Some {
                r.valid_end as nat
            } else {
                file_len as nat
            }),
            r.index_changed == ((exists|k: Seq<char>|
                old(self)@.contains_key(k) && !#[trigger] final(self)@.contains_key(k))
                || r.truncate_to is Some),
            disjoint_slots(old(self)@, old(self).slot_bytes()) ==> disjoint_slots(
                final(self)@,
                old(self).slot_bytes(),
            ),
    {
        let ghost om = self@;
        let ghost sp = kv_pairs(self.offsets@);
        let vb = self.slot;
        let ghost vbn = vb as nat;
        proof {
            lemma_to_map_dom(sp);
            assert forall|j: int| 0 <= j < sp.len() implies #[trigger] om.contains_key(sp[j].0)
                && om[sp[j].0] == sp[j].1 by {
                lemma_to_map_index(sp, j);
            }
        }
        let mut kept: Vec<(String, usize)> = Vec::new();
        let mut valid_end: usize = 0;
        let mut dropped = false;
        let mut i: usize = 0;
        proof {
            assert(kv_pairs(kept@) =~= Seq::empty());
            assert(kv_map(kept@) =~= Map::empty());
        }
        while i < self.offsets.len()
            invariant
                i <= self.offsets.len(),
                sp == kv_pairs(self.offsets@),
                om == to_map(sp),
                vb == self.slot,
                vbn == vb as nat,
                keys_distinct(sp),
                forall|j: int| 0 <= j < sp.len() ==> #[trigger] om.contains_key(sp[j].0) && om[sp[j].0]
                    == sp[j].1,
                forall|k: Seq<char>| #[trigger] om.contains_key(k) ==> has_key(sp, k),
                keys_distinct(kv_pairs(kept@)),
                forall|k: Seq<char>|
                    #[trigger] kv_map(kept@).contains_key(k) <==> (exists|j: int|
                        0 <= j < i && (#[trigger] sp[j]).0 == k && sp[j].1 + vbn <= file_len),
                forall|k: Seq<char>| #[trigger] kv_map(kept@).contains_key(k) ==> kv_map(kept@)[k] == om[k],
                slots_end(kv_map(kept@), vbn, valid_end as nat),
                dropped <==> (exists|j: int| 0 <= j < i && (#[trigger] sp[j]).1 + vbn > file_len),
            decreases self.offsets.len() - i,
        {
            let off = self.offsets[i].1;
            let ghost k0 = sp[i as int].0;
            proof {
                assert(sp[i as int] == (self.offsets@[i as int].0@, off));
            }
            if off <= file_len && vb <= file_len - off {
                let ghost before = kept@;
                proof {
                    lemma_to_map_dom(kv_pairs(before));
                    assert(!has_key(kv_pairs(before), k0)) by {
                        if has_key(kv_pairs(before), k0) {
                            assert(kv_map(before).contains_key(k0));
                            let j = choose|j: int|
                                0 <= j < i && (#[trigger] sp[j]).0 == k0 && sp[j].1 + vbn <= file_len;
                            assert(sp[j].0 == sp[i as int].0);
                        }
                    }
                    lemma_to_map_push(kv_pairs(before), k0, off);
                    assert(om.contains_key(sp[i as int].0));
                    assert(om[k0] == off);
                }
                kept.push((self.offsets[i].0.clone(), off));
                proof {
                    assert(kv_pairs(kept@) =~= kv_pairs(before).push((k0, off)));
                    assert(kv_map(kept@) == kv_map(before).insert(k0, off));
                    assert forall|k: Seq<char>|
                        #[trigger] kv_map(kept@).contains_key(k) <==> (exists|j: int|
                            0 <= j < i + 1 && (#[trigger] sp[j]).0 == k && sp[j].1 + vbn
                                <= file_len) by {
                        if k == k0 {
                            assert(sp[i as int].0 == k);
                        } else if kv_map(kept@).contains_key(k) {
                            assert(kv_map(before).contains_key(k));
                        } else {
                            if exists|j: int|
                                0 <= j < i + 1 && (#[trigger] sp[j]).0 == k && sp[j].1 + vbn
                                    <= file_len {
                                let j = choose|j: int|
                                    0 <= j < i + 1 && (#[trigger] sp[j]).0 == k && sp[j].1 + vbn
                                        <= file_len;
                                assert(j != i);
                                assert(kv_map(before).contains_key(k));
                            }
                        }
                    }
                }
                if off + vb > valid_end {
                    valid_end = off + vb;
                }
                proof {
                    let km = kv_map(kept@);
                    assert(km.contains_key(k0));
                    assert forall|k: Seq<char>| #[trigger] km.contains_key(k) implies km[k] + vbn
                        <= valid_end by {
                        if k != k0 {
                            assert(kv_map(before).contains_key(k));
                        }
                    }
                    if off + vb == valid_end {
                        assert(km.contains_key(k0) && km[k0] + vbn == valid_end);
                    } else {
                        assert(kv_map(before).contains_key(k0) || exists|k: Seq<char>|
                            #[trigger] kv_map(before).contains_key(k)) by {
                            if valid_end == 0 {
                                assert(off + vb <= 0);
                            }
                        }
                        let k1 = choose|k: Seq<char>|
                            #[trigger] kv_map(before).contains_key(k) && kv_map(before)[k] + vbn
                                == valid_end;
                        assert(km.contains_key(k1) && km[k1] + vbn == valid_end);
                    }
                }
            } else {
                dropped = true;
                proof {
                    assert(sp[i as int].1 + vbn > file_len);
                    assert forall|k: Seq<char>|
                        #[trigger] kv_map(kept@).contains_key(k) <==> (exists|j: int|
                            0 <= j < i + 1 && (#[trigger] sp[j]).0 == k && sp[j].1 + vbn
                                <= file_len) by {
                        if exists|j: int|
                            0 <= j < i + 1 && (#[trigger] sp[j]).0 == k && sp[j].1 + vbn
                                <= file_len {
                            let j = choose|j: int|
                                0 <= j < i + 1 && (#[trigger] sp[j]).0 == k && sp[j].1 + vbn
                                    <= file_len;
                            assert(j != i);
                        }
                    }
                }
            }
            i += 1;
        }
        let truncate = file_len > valid_end && valid_end > 0;
        let final_len = if truncate {
            valid_end
        } else {
            file_len
        };
        let ghost km = kv_map(kept@);
        proof {
            assert forall|k: Seq<char>|
                #[trigger] km.contains_key(k) <==> om.contains_key(k) && om[k] + vbn <= file_len by {
                if om.contains_key(k) {
                    let j = choose|j: int| 0 <= j < sp.len() && sp[j].0 == k;
                    assert(om[sp[j].0] == sp[j].1);
                    if om[k] + vbn <= file_len {
                        assert(sp[j].0 == k && sp[j].1 + vbn <= file_len);
                    }
                }
                if km.contains_key(k) {
                    let j = choose|j: int|
                        0 <= j < i && (#[trigger] sp[j]).0 == k && sp[j].1 + vbn <= file_len;
                    assert(om.contains_key(sp[j].0));
                }
            }
            assert(dropped <==> exists|k: Seq<char>|
                om.contains_key(k) && !#[trigger] km.contains_key(k)) by {
                if dropped {
                    let j = choose|j: int| 0 <= j < i && (#[trigger] sp[j]).1 + vbn > file_len;
                    let k = sp[j].0;
                    assert(om.contains_key(sp[j].0));
                    assert(om.contains_key(k) && om[k] == sp[j].1);
                    assert(!km.contains_key(k));
                }
                if exists|k: Seq<char>| om.contains_key(k) && !#[trigger] km.contains_key(k) {
                    let k = choose|k: Seq<char>| om.contains_key(k) && !#[trigger] km.contains_key(k);
                    let j = choose|j: int| 0 <= j < sp.len() && sp[j].0 == k;
                    assert(om[sp[j].0] == sp[j].1);
                    assert(sp[j].1 + vbn > file_len);
                }
            }
            assert forall|k: Seq<char>| #[trigger] km.contains_key(k) implies km[k] + vbn <= final_len by {
                assert(km[k] + vbn <= valid_end);
            }
        }
        self.offsets = kept;
        self.end = final_len;
        WarmRecovery {
            valid_end,
            truncate_to: if truncate {
                Some(valid_end)
            } else {
                None
            },
            index_changed: dropped || truncate,
        }
    }

    /// Places the vector of `id` at the end of the file: returns the
    /// offset to write its slot at (the current end), which becomes `id`'s
    /// entry. A previous slot of `id` is abandoned. A slot added this way
    /// never overlaps the slot of a vector still indexed.
    pub fn append(&mut self, id: &str) -> (offset: usize)
        requires
            old(self).wf(),
            old(self).file_end() + old(self).slot_bytes() <= usize::MAX,
        ensures
            final(self).wf(),
            offset == old(self).file_end(),
            final(self)@ == old(self)@.insert(id@, offset),
            final(self).file_end() == old(self).file_end() + old(self).slot_bytes(),
            final(self).slot_bytes() == old(self).slot_bytes(),
            disjoint_slots(old(self)@, old(self).slot_bytes()) ==> disjoint_slots(
                final(self)@,
                old(self).slot_bytes(),
            ),
    {
        let off = self.end;
        kv_upsert(&mut self.offsets, id.to_owned(), off);
        self.end = off + self.slot;
        off
    }

    /// Drops the entry of `id`, if any (its slot stays in the file).
    pub fn remove(&mut self, id: &str)
        requires
            old(self).wf(),
        ensures
            final(self).wf(),
            final(self)@ == old(self)@.remove(id@),
            final(self).file_end() == old(self).file_end(),
            final(self).slot_bytes() == old(self).slot_bytes(),
            disjoint_slots(old(self)@, old(self).slot_bytes()) ==> disjoint_slots(
                final(self)@,
                old(self).slot_bytes(),
            ),
    {
        kv_remove(&mut self.offsets, &id.to_owned());
    }

    /// Where the slot of `id` starts, for reading it from a mapping of
    /// `mapped` bytes (`None` when the file is not mapped).
    pub fn locate(&self, id: &str, mapped: Option<usize>) -> (r: Result<usize, FerresError>)
        requires
            self.wf(),
        ensures
            !self@.contains_key(id@) ==> (r matches Err(FerresError::Storage(m)) && m@ == "vector '"@
                + id@ + "' not found in warm storage"@),
            self@.contains_key(id@) && mapped is None ==> (r matches Err(FerresError::Storage(m))
                && m@ == "warm storage mmap not initialized"@),
            self@.contains_key(id@) && mapped is Some && self@[id@] + self.slot_bytes() > mapped->0
                ==> (r matches Err(FerresError::Storage(m)) && m@
                == "warm vector offset out of bounds for '"@ + id@ + "'"@),
            self@.contains_key(id@) && mapped is Some && self@[id@] + self.slot_bytes() <= mapped->0
                ==> r == Ok::<usize, FerresError>(self@[id@]),
    {
        let key = id.to_owned();
        let off = match kv_find(&self.offsets, &key) {
            Some(i) => self.offsets[i].1,
            None => {
                return Err(located_error("vector '", id, "' not found in warm storage"));
            },
        };
        let len = match mapped {
            Some(len) => len,
            None => {
                return Err(FerresError::Storage("warm storage mmap not initialized".to_owned()));
            },
        };
        if off > len || self.slot > len - off {
            return Err(located_error("warm vector offset out of bounds for '", id, "'"));
        }
        Ok(off)
    }

    /// Whether `id` has an entry.
    pub fn contains(&self, id: &str) -> (b: bool)
        requires
            self.wf(),
        ensures
            b == self@.contains_key(id@),
    {
        kv_find(&self.offsets, &id.to_owned()).is_some()
    }

    /// Number of entries.
    pub fn len(&self) -> (n: usize)
        requires
            self.wf(),
        ensures
            n == self@.len(),
    {
        proof {
            lemma_to_map_len(kv_pairs(self.offsets@));
        }
        self.offsets.len()
    }

    /// Whether there is no entry.
    pub fn is_empty(&self) -> (b: bool)
        requires
            self.wf(),
        ensures
            b == (self@.len() == 0),
    {
        proof {
            lemma_to_map_len(kv_pairs(self.offsets@));
        }
        self.offsets.len() == 0
    }

    /// Length of the vectors file as the index knows it.
    pub fn end(&self) -> (e: usize)
        ensures
            e == self.file_end(),
    {
        self.end
    }

    /// The entries, for saving the index.
    pub fn entries(&self) -> (v: Vec<(String, usize)>)
        requires
            self.wf(),
        ensures
            keys_distinct(kv_pairs(v@)),
            kv_map(v@) == self@,
    {
        let mut v: Vec<(String, usize)> = Vec::new();
        let mut i: usize = 0;
        while i < self.offsets.len()
            invariant
                i <= self.offsets.len(),
                kv_pairs(v@) =~= kv_pairs(self.offsets@).take(i as int),
            decreases self.offsets.len() - i,
        {
            let ghost before = v@;
            let key = self.offsets[i].0.clone();
            v.push((key, self.offsets[i].1));
            proof {
                assert(kv_pairs(v@) =~= kv_pairs(before).push((key@, self.offsets@[i as int].1)));
                assert(kv_pairs(self.offsets@).take(i + 1) =~= kv_pairs(self.offsets@).take(
                    i as int,
                ).push(kv_pairs(self.offsets@)[i as int]));
            }
            i += 1;
        }
        proof {
            assert(kv_pairs(self.offsets@).take(self.offsets.len() as int) =~= kv_pairs(
                self.offsets@,
            ));
        }
        v
    }

    /// The index after the file is rewritten with only the vectors of
    /// `ids`, in that order, one slot each: the `i`-th id's slot starts at
    /// `i` slots.
    pub fn compact(&mut self, ids: &Vec<String>)
        requires
            forall|a: int, b: int| 0 <= a < b < ids@.len() ==> ids@[a]@ != ids@[b]@,
            ids@.len() * old(self).slot_bytes() <= usize::MAX,
        ensures
            final(self).wf(),
            final(self).slot_bytes() == old(self).slot_bytes(),
            final(self).file_end() == ids@.len() * old(self).slot_bytes(),
            forall|k: Seq<char>|
                #[trigger] final(self)@.contains_key(k) <==> exists|i: int|
                    0 <= i < ids@.len() && (#[trigger] ids@[i])@ == k,
            forall|i: int|
                0 <= i < ids@.len() ==> final(self)@[(#[trigger] ids@[i])@] == i * old(self).slot_bytes(),
            disjoint_slots(final(self)@, old(self).slot_bytes()),
    {
        let vb = self.slot;
        let ghost vbn = vb as nat;
        let mut offsets: Vec<(String, usize)> = Vec::new();
        let mut i: usize = 0;
        while i < ids.len()
            invariant
                i <= ids.len(),
                vb == self.slot,
                vbn == vb as nat,
                ids@.len() * vbn <= usize::MAX,
                forall|a: int, b: int| 0 <= a < b < ids@.len() ==> ids@[a]@ != ids@[b]@,
                offsets@.len() == i,
                forall|a: int|
                    0 <= a < i ==> (#[trigger] offsets@[a]).0@ == ids@[a]@ && offsets@[a].1 == a
                        * vbn,
            decreases ids.len() - i,
        {
            proof {
                assert(i * vbn <= ids@.len() * vbn) by (nonlinear_arith)
                    requires
                        i <= ids@.len(),
                ;
            }
            offsets.push((ids[i].clone(), i * vb));
            i += 1;
        }
        proof {
            let p = kv_pairs(offsets@);
            assert(keys_distinct(p)) by {
                assert forall|a: int, b: int|
                    0 <= a < p.len() && 0 <= b < p.len() && a != b implies p[a].0 != p[b].0 by {
                    assert(p[a].0 == ids@[a]@ && p[b].0 == ids@[b]@);
                }
            }
            lemma_to_map_dom(p);
            assert forall|a: int| 0 <= a < ids@.len() implies kv_map(offsets@)[(
            #[trigger] ids@[a])@] == a * vbn by {
                lemma_to_map_index(p, a);
            }
            assert forall|k: Seq<char>|
                #[trigger] kv_map(offsets@).contains_key(k) <==> exists|a: int|
                    0 <= a < ids@.len() && (#[trigger] ids@[a])@ == k by {
                if kv_map(offsets@).contains_key(k) {
                    let a = choose|a: int| 0 <= a < p.len() && p[a].0 == k;
                    assert(ids@[a]@ == k);
                }
                if exists|a: int| 0 <= a < ids@.len() && (#[trigger] ids@[a])@ == k {
                    let a = choose|a: int| 0 <= a < ids@.len() && (#[trigger] ids@[a])@ == k;
                    assert(p[a].0 == k);
                }
            }
            let m = kv_map(offsets@);
            assert forall|k: Seq<char>| #[trigger] m.contains_key(k) implies m[k] + vbn <= ids@.len()
                * vbn by {
                let a = choose|a: int| 0 <= a < ids@.len() && (#[trigger] ids@[a])@ == k;
                assert(m[k] == a * vbn);
                assert(a * vbn + vbn <= ids@.len() * vbn) by (nonlinear_arith)
                    requires
                        a < ids@.len(),
                ;
            }
            assert forall|x: Seq<char>, y: Seq<char>|
                #[trigger] m.contains_key(x) && #[trigger] m.contains_key(y) && x != y implies m[x]
                + vbn <= m[y] || m[y] + vbn <= m[x] by {
                let a = choose|a: int| 0 <= a < ids@.len() && (#[trigger] ids@[a])@ == x;
                let b = choose|b: int| 0 <= b < ids@.len() && (#[trigger] ids@[b])@ == y;
                assert(a != b);
                assert(m[x] == a * vbn && m[y] == b * vbn);
                if a < b {
                    assert(a * vbn + vbn <= b * vbn) by (nonlinear_arith)
                        requires
                            a < b,
                    ;
                } else {
                    assert(b * vbn + vbn <= a * vbn) by (nonlinear_arith)
                        requires
                            b < a,
                    ;
                }
            }
        }
        self.offsets = offsets;
        self.end = ids.len() * vb;
    }
}

/// Every slot of a well-formed index lies within its file, so a vector
/// placed with `append` can be read back from a mapping of the whole file.
pub proof fn law_appended_slot_is_readable(w: WarmIndex, id: Seq<char>)
    requires
        w.wf(),
        w@.contains_key(id),
    ensures
        w@[id] + w.slot_bytes() <= w.file_end(),
{
}

} // verus!
