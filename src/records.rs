use vstd::prelude::*;

verus! {

/// The most records a store holds: every index must fit in an `i32`.
pub const MAX_LEN: usize = 0x8000_0000;

/// A position in the store and the value held (or to be written) there.
#[derive(Clone, Copy, Debug, PartialEq, Eq, Structural)]
pub struct Record {
    pub index: i32,
    pub value: i32,
}

/// An ordered collection of records.
#[derive(Debug)]
pub struct Records {
    pub records: Vec<Record>,
}

/// A fault of a store operation; the store is left as it was.
#[derive(Clone, Copy, Debug, PartialEq, Eq, Structural)]
pub enum DbError {
    /// An update names an index outside the store.
    IndexOutOfRange,
    /// The store already holds `MAX_LEN` records.
    StoreFull,
}

/// A store length that the store can reach.
pub open spec fn admissible_len(len: nat) -> bool {
    len <= MAX_LEN
}

/// Every position of `s` paired with its value, in index order.
pub open spec fn indexed(s: Seq<i32>) -> Seq<Record> {
    Seq::new(s.len(), |i: int| Record { index: i as i32, value: s[i] })
}

/// The records of `s` whose value is `query`, in ascending index order.
pub open spec fn search_spec(query: i32, s: Seq<i32>) -> Seq<Record> {
    indexed(s).filter(|r: Record| r.value == query)
}

/// Every index that `updates` names lies in a store of length `len`.
pub open spec fn in_range(updates: Seq<Record>, len: nat) -> bool {
    forall|k: int| 0 <= k < updates.len() ==> 0 <= #[trigger] updates[k].index < len
}

/// `s` after writing each record of `updates` in turn.
pub open spec fn apply_updates(s: Seq<i32>, updates: Seq<Record>) -> Seq<i32>
    decreases updates.len(),
{
    if updates.len() == 0 {
        s
    } else {
        let last = updates.last();
        apply_updates(s, updates.drop_last()).update(last.index as int, last.value)
    }
}

/// `s` after appending each value of `values` in turn.
pub open spec fn append_all(s: Seq<i32>, values: Seq<i32>) -> Seq<i32>
    decreases values.len(),
{
    if values.len() == 0 {
        s
    } else {
        append_all(s, values.drop_last()).push(values.last())
    }
}

/// The value that the last record of `updates` naming `index` writes, if any.
pub open spec fn last_write(updates: Seq<Record>, index: int) -> Option<i32>
    decreases updates.len(),
{
    if updates.len() == 0 {
        None
    } else if updates.last().index == index {
        Some(updates.last().value)
    } else {
        last_write(updates.drop_last(), index)
    }
}

/// Appends lose nothing and duplicate nothing: after appending `values` one by
/// one, the store has grown by exactly their number, the old records are kept,
/// and the `k`-th value stands at the `k`-th new index.
pub proof fn lemma_append_all(s: Seq<i32>, values: Seq<i32>)
    ensures
        append_all(s, values) == s + values,
        append_all(s, values).len() == s.len() + values.len(),
        forall|i: int| 0 <= i < s.len() ==> #[trigger] append_all(s, values)[i] == s[i],
        forall|k: int|
            0 <= k < values.len() ==> #[trigger] append_all(s, values)[s.len() + k] == values[k],
    decreases values.len(),
{
    if values.len() > 0 {
        lemma_append_all(s, values.drop_last());
        assert(s + values =~= (s + values.drop_last()).push(values.last()));
    } else {
        assert(s + values =~= s);
    }
    assert forall|k: int| 0 <= k < values.len() implies #[trigger] append_all(s, values)[s.len()
        + k] == values[k] by {
        assert((s + values)[s.len() + k] == values[k]);
    }
}

/// A search finds exactly the indices that hold the query: every record found
/// lies in the store and holds the query there, the records come in strictly
/// ascending index order, and every index holding the query is found.
pub proof fn lemma_search_exact(query: i32, s: Seq<i32>)
    requires
        admissible_len(s.len()),
    ensures
        forall|k: int|
            0 <= k < search_spec(query, s).len() ==> {
                let r = #[trigger] search_spec(query, s)[k];
                &&& 0 <= r.index < s.len()
                &&& r.value == query
                &&& s[r.index as int] == query
            },
        forall|j: int, k: int|
            0 <= j < k < search_spec(query, s).len() ==> #[trigger] search_spec(query, s)[j].index
                < #[trigger] search_spec(query, s)[k].index,
        forall|i: int|
            0 <= i < s.len() && s[i] == query ==> exists|k: int|
                0 <= k < search_spec(query, s).len() && #[trigger] search_spec(query, s)[k].index
                    == i,
    decreases s.len(),
{
    let r = search_spec(query, s);
    reveal_with_fuel(Seq::filter, 1);
    if s.len() > 0 {
        let p = s.drop_last();
        lemma_search_exact(query, p);
        let rp = search_spec(query, p);
        assert(indexed(s).drop_last() =~= indexed(p));
        let last = indexed(s).last();
        assert(last.index == s.len() - 1);
        if s.last() == query {
            assert(r == rp.push(last));
            assert forall|i: int| 0 <= i < s.len() && s[i] == query implies exists|k: int|
                0 <= k < r.len() && #[trigger] r[k].index == i by {
                if i == s.len() - 1 {
                    assert(r[r.len() - 1].index == i);
                } else {
                    assert(p[i] == s[i]);
                    let k = choose|k: int| 0 <= k < rp.len() && #[trigger] rp[k].index == i;
                    assert(r[k].index == i);
                }
            }
        } else {
            assert(r == rp);
            assert forall|i: int| 0 <= i < s.len() && s[i] == query implies exists|k: int|
                0 <= k < r.len() && #[trigger] r[k].index == i by {
                assert(i != s.len() - 1);
                assert(p[i] == s[i]);
            }
        }
    }
}

/// A bulk update whose indices all lie in the store writes exactly the named
/// indices: each one ends with the value of the last record naming it, every
/// other index keeps its value, and the length is unchanged.
pub proof fn lemma_update_targets(s: Seq<i32>, updates: Seq<Record>)
    requires
        in_range(updates, s.len()),
    ensures
        apply_updates(s, updates).len() == s.len(),
        forall|i: int|
            0 <= i < s.len() ==> (#[trigger] last_write(updates, i) is Some <==> exists|k: int|
                0 <= k < updates.len() && #[trigger] updates[k].index == i),
        forall|i: int|
            0 <= i < s.len() ==> #[trigger] apply_updates(s, updates)[i] == match last_write(
                updates,
                i,
            ) {
                Some(v) => v,
                None => s[i],
            },
    decreases updates.len(),
{
    if updates.len() > 0 {
        let p = updates.drop_last();
        assert forall|k: int| 0 <= k < p.len() implies 0 <= #[trigger] p[k].index < s.len() by {
            assert(p[k] == updates[k]);
        }
        lemma_update_targets(s, p);
        assert(0 <= updates[updates.len() - 1].index < s.len());
        assert forall|i: int| 0 <= i < s.len() implies (#[trigger] last_write(updates, i) is Some
            <==> exists|k: int| 0 <= k < updates.len() && #[trigger] updates[k].index == i) by {
            if last_write(updates, i) is Some {
                if updates.last().index == i {
                    assert(updates[updates.len() - 1].index == i);
                } else {
                    assert(last_write(updates, i) == last_write(p, i));
                    let k = choose|k: int| 0 <= k < p.len() && #[trigger] p[k].index == i;
                    assert(updates[k].index == i);
                }
            } else {
                assert(last_write(updates, i) == last_write(p, i));
                assert forall|k: int| 0 <= k < updates.len() implies #[trigger] updates[k].index
                    != i by {
                    if k < updates.len() - 1 {
                        assert(p[k] == updates[k]);
                    }
                }
            }
        }
    }
}

/// The operations of the store; each runs inside a scope that its caller holds.
pub struct DbCommon;

impl DbCommon {
    /// Every record of `records` whose value is `query`, in ascending index order.
    pub fn search(query: i32, records: &[i32]) -> (r: Records)
        requires
            admissible_len(records@.len()),
        ensures
            r.records@ == search_spec(query, records@),
    {
        let mut out: Vec<Record> = Vec::new();
        let mut i: usize = 0;
        while i < records.len()
            invariant
                i <= records@.len(),
                admissible_len(records@.len()),
                out@ == search_spec(query, records@.subrange(0, i as int)),
            decreases records@.len() - i,
        {
            let value = records[i];
            proof {
                let pre = records@.subrange(0, i as int);
                let post = records@.subrange(0, i + 1);
                assert(indexed(post).drop_last() =~= indexed(pre));
                reveal_with_fuel(Seq::filter, 1);
            }
            if value == query {
                out.push(Record { index: i as i32, value });
            }
            i = i + 1;
        }
        assert(records@.subrange(0, records@.len() as int) =~= records@);
        Records { records: out }
    }

    /// Appends `value` at the new last index, unless the store is full.
    pub fn add(value: i32, records: &mut Vec<i32>) -> (r: Result<(), DbError>)
        ensures
            r is Ok <==> old(records)@.len() < MAX_LEN,
            r is Ok ==> final(records)@ == old(records)@.push(value),
            r is Err ==> r == Err::<(), DbError>(DbError::StoreFull) && final(records)@ == old(records)@,
    {
        if records.len() >= MAX_LEN {
            return Err(DbError::StoreFull);
        }
        records.push(value);
        Ok(())
    }

    /// Writes each record of `updates` in turn, if every index lies in the store;
    /// otherwise writes nothing and reports the fault.
    pub fn update(updates: &[Record], records: &mut [i32]) -> (r: Result<(), DbError>)
        ensures
            final(records)@.len() == old(records)@.len(),
            r is Ok <==> in_range(updates@, old(records)@.len()),
            r is Ok ==> final(records)@ == apply_updates(old(records)@, updates@),
            r is Err ==> r == Err::<(), DbError>(DbError::IndexOutOfRange) && final(records)@ == old(records)@,
    {
        let len = records.len();
        let mut k: usize = 0;
        while k < updates.len()
            invariant
                k <= updates@.len(),
                len == records@.len(),
                in_range(updates@.subrange(0, k as int), len as nat),
            decreases updates@.len() - k,
        {
            let index = updates[k].index;
            if index < 0 || index as usize >= len {
                assert(!in_range(updates@, len as nat)) by {
                    assert(updates@[k as int].index == index);
                }
                return Err(DbError::IndexOutOfRange);
            }
            assert(updates@.subrange(0, k + 1).drop_last() =~= updates@.subrange(0, k as int));
            k = k + 1;
        }
        assert(updates@.subrange(0, k as int) =~= updates@);
        let ghost start = records@;
        let mut j: usize = 0;
        while j < updates.len()
            invariant
                j <= updates@.len(),
                start == old(records)@,
                records@.len() == start.len(),
                in_range(updates@, start.len()),
                records@ == apply_updates(start, updates@.subrange(0, j as int)),
            decreases updates@.len() - j,
        {
            let record = updates[j];
            assert(updates@.subrange(0, j + 1).drop_last() =~= updates@.subrange(0, j as int));
            assert(updates@[j as int] == record);
            records[record.index as usize] = record.value;
            j = j + 1;
        }
        assert(updates@.subrange(0, j as int) =~= updates@);
        Ok(())
    }
}

} // verus!
