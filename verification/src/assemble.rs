//! Putting the fetched segments together, in the order of the plan.
use vstd::prelude::*;

verus! {

/// The bytes that each slot of a segment store holds.
pub open spec fn contents(parts: Seq<Option<Vec<u8>>>) -> Seq<Option<Seq<u8>>> {
    Seq::new(
        parts.len(),
        |i: int|
            match parts[i] {
                Some(v) => Some(v@),
                None => None,
            },
    )
}

/// The bytes of the segments that are there, one after the other in the
/// order of their indices; a slot that holds nothing adds nothing.
pub open spec fn joined(slots: Seq<Option<Seq<u8>>>) -> Seq<u8>
    decreases slots.len(),
{
    if slots.len() == 0 {
        Seq::<u8>::empty()
    } else {
        joined(slots.drop_last()) + match slots.last() {
            Some(bytes) => bytes,
            None => Seq::<u8>::empty(),
        }
    }
}

/// The slots after the segment at `index` arrived with `bytes`. An index
/// outside the plan changes nothing.
pub open spec fn placed(slots: Seq<Option<Seq<u8>>>, index: int, bytes: Seq<u8>) -> Seq<
    Option<Seq<u8>>,
> {
    if 0 <= index < slots.len() {
        slots.update(index, Some(bytes))
    } else {
        slots
    }
}

/// The slots after the segments arrived in the order of `arrivals`.
pub open spec fn placed_all(slots: Seq<Option<Seq<u8>>>, arrivals: Seq<(int, Seq<u8>)>) -> Seq<
    Option<Seq<u8>>,
>
    decreases arrivals.len(),
{
    if arrivals.len() == 0 {
        slots
    } else {
        placed(placed_all(slots, arrivals.drop_last()), arrivals.last().0, arrivals.last().1)
    }
}

/// Whether no two arrivals are for the same index.
pub open spec fn each_once(arrivals: Seq<(int, Seq<u8>)>) -> bool {
    forall|k: int, l: int|
        0 <= k < l < arrivals.len() ==> (#[trigger] arrivals[k]).0 != (#[trigger] arrivals[l]).0
}

/// A store with `count` empty slots.
pub fn empty_store(count: usize) -> (parts: Vec<Option<Vec<u8>>>)
    ensures
        contents(parts@) == Seq::new(count as nat, |i: int| None::<Seq<u8>>),
{
    let mut parts: Vec<Option<Vec<u8>>> = Vec::new();
    let mut i: usize = 0;
    while i < count
        invariant
            i <= count,
            contents(parts@) == Seq::new(i as nat, |k: int| None::<Seq<u8>>),
        decreases count - i,
    {
        let ghost before = contents(parts@);
        parts.push(None);
        assert(contents(parts@) =~= before.push(None::<Seq<u8>>));
        assert(contents(parts@) =~= Seq::new((i + 1) as nat, |k: int| None::<Seq<u8>>));
        i += 1;
    }
    parts
}

/// Puts the bytes of the segment at `index` into its slot. An index outside
/// the plan changes nothing.
pub fn place_segment(parts: &mut Vec<Option<Vec<u8>>>, index: usize, bytes: Vec<u8>)
    ensures
        contents(final(parts)@) == placed(contents(old(parts)@), index as int, bytes@),
{
    if index < parts.len() {
        parts[index] = Some(bytes);
        assert(contents(parts@) =~= placed(contents(old(parts)@), index as int, bytes@));
    }
}

/// The assembled stream: the bytes of the segments that are there, strictly
/// in the order of their indices.
pub fn assemble(parts: &Vec<Option<Vec<u8>>>) -> (out: Vec<u8>)
    ensures
        out@ == joined(contents(parts@)),
{
    let mut out: Vec<u8> = Vec::new();
    let mut i: usize = 0;
    while i < parts.len()
        invariant
            i <= parts.len(),
            out@ == joined(contents(parts@).take(i as int)),
        decreases parts.len() - i,
    {
        let ghost before = out@;
        proof {
            assert(contents(parts@).take(i + 1).drop_last() =~= contents(parts@).take(i as int));
        }
        match &parts[i] {
            Some(bytes) => {
                let mut k: usize = 0;
                while k < bytes.len()
                    invariant
                        k <= bytes.len(),
                        out@ == before + bytes@.take(k as int),
                    decreases bytes.len() - k,
                {
                    out.push(bytes[k]);
                    assert(before + bytes@.take(k + 1) =~= (before + bytes@.take(k as int)).push(
                        bytes@[k as int],
                    ));
                    k += 1;
                }
                assert(bytes@.take(bytes.len() as int) =~= bytes@);
            },
            None => {
                assert(out@ =~= before + Seq::<u8>::empty());
            },
        }
        i += 1;
    }
    assert(contents(parts@).take(parts.len() as int) =~= contents(parts@));
    out
}

/// After arrivals that come each for another index, a slot holds the bytes
/// of the arrival for its index, or else what it held before.
pub proof fn lemma_placed_all_at(slots: Seq<Option<Seq<u8>>>, arrivals: Seq<(int, Seq<u8>)>)
    requires
        each_once(arrivals),
    ensures
        placed_all(slots, arrivals).len() == slots.len(),
        forall|k: int|
            0 <= k < arrivals.len() && 0 <= (#[trigger] arrivals[k]).0 < slots.len()
                ==> placed_all(slots, arrivals)[arrivals[k].0] == Some(arrivals[k].1),
        forall|i: int|
            0 <= i < slots.len() && (forall|k: int|
                0 <= k < arrivals.len() ==> (#[trigger] arrivals[k]).0 != i) ==> placed_all(
                slots,
                arrivals,
            )[i] == slots[i],
    decreases arrivals.len(),
{
    if arrivals.len() > 0 {
        let p = arrivals.drop_last();
        assert forall|k: int, l: int| 0 <= k < l < p.len() implies (#[trigger] p[k]).0 != (
        #[trigger] p[l]).0 by {
            assert(p[k] == arrivals[k] && p[l] == arrivals[l]);
        }
        lemma_placed_all_at(slots, p);
        let s = placed_all(slots, p);
        let r = placed_all(slots, arrivals);
        assert forall|k: int|
            0 <= k < arrivals.len() && 0 <= (#[trigger] arrivals[k]).0 < slots.len() implies r[
            arrivals[k].0] == Some(arrivals[k].1) by {
            if k < p.len() {
                assert(p[k] == arrivals[k]);
                assert(arrivals[k].0 != arrivals[arrivals.len() - 1].0);
            }
        }
        assert forall|i: int|
            0 <= i < slots.len() && (forall|k: int|
                0 <= k < arrivals.len() ==> (#[trigger] arrivals[k]).0 != i) implies r[i]
            == slots[i] by {
            assert(arrivals[arrivals.len() - 1].0 != i);
            assert forall|k: int| 0 <= k < p.len() implies (#[trigger] p[k]).0 != i by {
                assert(p[k] == arrivals[k]);
            }
        }
    }
}

/// The assembled stream does not depend on the order in which the segments
/// arrived: two orders of the same arrivals, each for another index, fill
/// the store alike and so assemble to the same bytes.
pub proof fn lemma_assembly_ignores_arrival_order(
    slots: Seq<Option<Seq<u8>>>,
    first: Seq<(int, Seq<u8>)>,
    second: Seq<(int, Seq<u8>)>,
)
    requires
        each_once(first),
        each_once(second),
        forall|x: (int, Seq<u8>)| first.contains(x) <==> second.contains(x),
    ensures
        placed_all(slots, first) == placed_all(slots, second),
        joined(placed_all(slots, first)) == joined(placed_all(slots, second)),
{
    lemma_placed_all_at(slots, first);
    lemma_placed_all_at(slots, second);
    let a = placed_all(slots, first);
    let b = placed_all(slots, second);
    assert forall|i: int| 0 <= i < slots.len() implies a[i] == b[i] by {
        if exists|k: int| 0 <= k < first.len() && (#[trigger] first[k]).0 == i {
            let k = choose|k: int| 0 <= k < first.len() && (#[trigger] first[k]).0 == i;
            assert(first.contains(first[k]));
            assert(second.contains(first[k]));
            let l = choose|l: int| 0 <= l < second.len() && second[l] == first[k];
            assert(second[l].0 == i);
            assert(a[first[k].0] == Some(first[k].1));
            assert(b[second[l].0] == Some(second[l].1));
        } else {
            assert(forall|k: int| 0 <= k < first.len() ==> (#[trigger] first[k]).0 != i);
            assert forall|l: int| 0 <= l < second.len() implies (#[trigger] second[l]).0
                != i by {
                assert(second.contains(second[l]));
                assert(first.contains(second[l]));
                let k = choose|k: int| 0 <= k < first.len() && first[k] == second[l];
                assert(first[k].0 == second[l].0);
            }
            assert(a[i] == slots[i]);
            assert(b[i] == slots[i]);
        }
    }
    assert(a =~= b);
}

} // verus!
