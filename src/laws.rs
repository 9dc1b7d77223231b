//! Properties of the inventory that relate its parts or several calls.
use vstd::prelude::*;
use crate::attribute::{count_of, flag_of, text_of};
use crate::inventory::{
    device_of, device_resolves, inventory_of, partition_of, partitions_of, DeviceDirView,
    DeviceView, PartitionDirView,
};

verus! {

/// The entries among `es` that resolve as partitions under sector size
/// `sector_size`.
pub open spec fn valid_entries(es: Seq<PartitionDirView>, sector_size: nat) -> Seq<
    PartitionDirView,
> {
    es.filter(|e: PartitionDirView| partition_of(e, sector_size) is Some)
}

pub open spec fn entry_names_distinct(es: Seq<PartitionDirView>) -> bool {
    forall|i: int, j: int|
        0 <= i < es.len() && 0 <= j < es.len() && i != j ==> es[i].name != es[j].name
}

pub open spec fn dir_names_distinct(ds: Seq<DeviceDirView>) -> bool {
    forall|i: int, j: int|
        0 <= i < ds.len() && 0 <= j < ds.len() && i != j ==> ds[i].name != ds[j].name
}

pub open spec fn device_names_distinct(vs: Seq<DeviceView>) -> bool {
    forall|i: int, j: int|
        0 <= i < vs.len() && 0 <= j < vs.len() && i != j ==> vs[i].name != vs[j].name
}

proof fn lemma_partition_count(es: Seq<PartitionDirView>, ss: nat)
    ensures
        partitions_of(es, ss).len() == valid_entries(es, ss).len(),
    decreases es.len(),
{
    reveal(Seq::filter);
    if es.len() > 0 {
        lemma_partition_count(es.drop_last(), ss);
    }
}

proof fn lemma_partition_sources(es: Seq<PartitionDirView>, ss: nat)
    ensures
        forall|j: int|
            0 <= j < partitions_of(es, ss).len() ==> exists|i: int|
                0 <= i < es.len() && partition_of(es[i], ss) == Some(
                    #[trigger] partitions_of(es, ss)[j],
                ),
    decreases es.len(),
{
    if es.len() > 0 {
        let rest = es.drop_last();
        lemma_partition_sources(rest, ss);
        let ps = partitions_of(es, ss);
        assert forall|j: int| 0 <= j < ps.len() implies exists|i: int|
            0 <= i < es.len() && partition_of(es[i], ss) == Some(#[trigger] ps[j]) by {
            if j < partitions_of(rest, ss).len() {
                let i = choose|i: int|
                    0 <= i < rest.len() && partition_of(rest[i], ss) == Some(
                        partitions_of(rest, ss)[j],
                    );
                assert(es[i] == rest[i]);
            } else {
                assert(partition_of(es[es.len() - 1], ss) == Some(ps[j]));
            }
        }
    }
}

proof fn lemma_device_sources(ds: Seq<DeviceDirView>)
    ensures
        forall|j: int|
            0 <= j < inventory_of(ds).len() ==> exists|i: int|
                0 <= i < ds.len() && device_of(ds[i]) == Some(#[trigger] inventory_of(ds)[j]),
    decreases ds.len(),
{
    if ds.len() > 0 {
        let rest = ds.drop_last();
        lemma_device_sources(rest);
        let vs = inventory_of(ds);
        assert forall|j: int| 0 <= j < vs.len() implies exists|i: int|
            0 <= i < ds.len() && device_of(ds[i]) == Some(#[trigger] vs[j]) by {
            if j < inventory_of(rest).len() {
                let i = choose|i: int|
                    0 <= i < rest.len() && device_of(rest[i]) == Some(inventory_of(rest)[j]);
                assert(ds[i] == rest[i]);
            } else {
                assert(device_of(ds[ds.len() - 1]) == Some(vs[j]));
            }
        }
    }
}

proof fn lemma_device_kept(ds: Seq<DeviceDirView>, i: int)
    requires
        0 <= i < ds.len(),
        device_of(ds[i]) is Some,
    ensures
        inventory_of(ds).contains(device_of(ds[i])->Some_0),
    decreases ds.len(),
{
    let rest = ds.drop_last();
    let v = device_of(ds[i])->Some_0;
    if i < ds.len() - 1 {
        assert(rest[i] == ds[i]);
        lemma_device_kept(rest, i);
        let k = choose|k: int| 0 <= k < inventory_of(rest).len() && inventory_of(rest)[k] == v;
        assert(inventory_of(ds)[k] == v);
    } else {
        assert(inventory_of(ds).last() == v);
    }
}

proof fn lemma_device_names_distinct(ds: Seq<DeviceDirView>)
    requires
        dir_names_distinct(ds),
    ensures
        device_names_distinct(inventory_of(ds)),
    decreases ds.len(),
{
    if ds.len() > 0 {
        let rest = ds.drop_last();
        assert(dir_names_distinct(rest)) by {
            assert forall|i: int, j: int|
                0 <= i < rest.len() && 0 <= j < rest.len() && i != j implies rest[i].name
                != rest[j].name by {
                assert(rest[i] == ds[i] && rest[j] == ds[j]);
            }
        }
        lemma_device_names_distinct(rest);
        lemma_device_sources(rest);
        let vr = inventory_of(rest);
        if let Some(v) = device_of(ds.last()) {
            assert forall|k: int| 0 <= k < vr.len() implies vr[k].name != v.name by {
                let i = choose|i: int| 0 <= i < rest.len() && device_of(rest[i]) == Some(vr[k]);
                assert(ds[i] == rest[i]);
                assert(ds[i].name != ds[ds.len() - 1].name);
            }
            let vs = inventory_of(ds);
            assert(vs == vr.push(v));
            assert forall|i: int, j: int|
                0 <= i < vs.len() && 0 <= j < vs.len() && i != j implies vs[i].name
                != vs[j].name by {
                if i < vr.len() && j < vr.len() {
                    assert(vs[i] == vr[i] && vs[j] == vr[j]);
                } else if i < vr.len() {
                    assert(vs[i] == vr[i]);
                } else {
                    assert(vs[j] == vr[j]);
                }
            }
        }
    }
}

/// A well-formed device appears in the inventory exactly once, under its own
/// name, and lists exactly as many partitions as it has subdirectories that
/// resolve as partitions (all of them, where every entry is valid).
pub proof fn law_device_listed_once(ds: Seq<DeviceDirView>, i: int)
    requires
        dir_names_distinct(ds),
        0 <= i < ds.len(),
        device_resolves(ds[i]),
    ensures
        exists|j: int|
            #![trigger inventory_of(ds)[j]]
            0 <= j < inventory_of(ds).len() && Some(inventory_of(ds)[j]) == device_of(ds[i])
                && (forall|k: int|
                0 <= k < inventory_of(ds).len() && k != j ==> inventory_of(ds)[k].name
                    != ds[i].name),
        device_of(ds[i])->Some_0.partitions.len() == valid_entries(
            ds[i].entries,
            count_of(ds[i].hw_sector_size)->Some_0,
        ).len(),
        (forall|e: int|
            0 <= e < ds[i].entries.len() ==> (partition_of(
                #[trigger] ds[i].entries[e],
                count_of(ds[i].hw_sector_size)->Some_0,
            ) is Some)) ==> device_of(ds[i])->Some_0.partitions.len() == ds[i].entries.len(),
{
    let vs = inventory_of(ds);
    let ss = count_of(ds[i].hw_sector_size)->Some_0;
    lemma_device_kept(ds, i);
    lemma_device_names_distinct(ds);
    let j = choose|j: int| 0 <= j < vs.len() && vs[j] == device_of(ds[i])->Some_0;
    assert forall|k: int| 0 <= k < vs.len() && k != j implies vs[k].name != ds[i].name by {
        assert(vs[k].name != vs[j].name);
    }
    lemma_partition_count(ds[i].entries, ss);
    let es = ds[i].entries;
    if forall|e: int| 0 <= e < es.len() ==> (partition_of(#[trigger] es[e], ss) is Some) {
        lemma_all_kept(es, ss);
    }
}

proof fn lemma_all_kept(es: Seq<PartitionDirView>, ss: nat)
    requires
        forall|e: int| 0 <= e < es.len() ==> (partition_of(#[trigger] es[e], ss) is Some),
    ensures
        valid_entries(es, ss).len() == es.len(),
    decreases es.len(),
{
    reveal(Seq::filter);
    if es.len() > 0 {
        let rest = es.drop_last();
        assert forall|e: int| 0 <= e < rest.len() implies (partition_of(
            #[trigger] rest[e],
            ss,
        ) is Some) by {
            assert(rest[e] == es[e]);
        }
        lemma_all_kept(rest, ss);
        assert(partition_of(es[es.len() - 1], ss) is Some);
    }
}

/// A device whose sector count or sector size is missing or malformed is
/// absent from the inventory.
pub proof fn law_device_without_size_absent(ds: Seq<DeviceDirView>, i: int)
    requires
        dir_names_distinct(ds),
        0 <= i < ds.len(),
        count_of(ds[i].size) is None || count_of(ds[i].hw_sector_size) is None,
    ensures
        forall|k: int| 0 <= k < inventory_of(ds).len() ==> #[trigger] inventory_of(ds)[k].name
            != ds[i].name,
{
    lemma_device_sources(ds);
    assert forall|k: int| 0 <= k < inventory_of(ds).len() implies #[trigger] inventory_of(
        ds,
    )[k].name != ds[i].name by {
        let m = choose|m: int| 0 <= m < ds.len() && device_of(ds[m]) == Some(inventory_of(ds)[k]);
        if m != i {
            assert(ds[m].name != ds[i].name);
        }
    }
}

/// A partition whose sector count is missing or malformed is left out of its
/// device's partitions, while the device itself still resolves.
pub proof fn law_partition_without_size_absent(d: DeviceDirView, k: int)
    requires
        device_resolves(d),
        entry_names_distinct(d.entries),
        0 <= k < d.entries.len(),
        count_of(d.entries[k].size) is None,
    ensures
        device_of(d) is Some,
        forall|j: int|
            0 <= j < device_of(d)->Some_0.partitions.len() ==> #[trigger] device_of(
                d,
            )->Some_0.partitions[j].name != d.entries[k].name,
{
    let ss = count_of(d.hw_sector_size)->Some_0;
    let ps = partitions_of(d.entries, ss);
    lemma_partition_sources(d.entries, ss);
    assert forall|j: int| 0 <= j < ps.len() implies ps[j].name != d.entries[k].name by {
        let m = choose|m: int|
            0 <= m < d.entries.len() && partition_of(d.entries[m], ss) == Some(ps[j]);
        if m != k {
            assert(d.entries[m].name != d.entries[k].name);
        }
    }
}

/// The inventory depends on the metadata alone: two catalogs that hold the
/// same directories in the same order give the same inventory, and two that
/// hold the same directories in any order give the same devices, each
/// possibly at another position.
pub proof fn law_inventory_repeatable(a: Seq<DeviceDirView>, b: Seq<DeviceDirView>)
    requires
        forall|d: DeviceDirView| a.contains(d) <==> b.contains(d),
    ensures
        a == b ==> inventory_of(a) == inventory_of(b),
        forall|v: DeviceView| inventory_of(a).contains(v) <==> inventory_of(b).contains(v),
{
    lemma_device_sources(a);
    lemma_device_sources(b);
    assert forall|v: DeviceView| inventory_of(a).contains(v) implies inventory_of(b).contains(
        v,
    ) by {
        let j = choose|j: int| 0 <= j < inventory_of(a).len() && inventory_of(a)[j] == v;
        let i = choose|i: int| 0 <= i < a.len() && device_of(a[i]) == Some(inventory_of(a)[j]);
        assert(a.contains(a[i]));
        let m = choose|m: int| 0 <= m < b.len() && b[m] == a[i];
        lemma_device_kept(b, m);
    }
    assert forall|v: DeviceView| inventory_of(b).contains(v) implies inventory_of(a).contains(
        v,
    ) by {
        let j = choose|j: int| 0 <= j < inventory_of(b).len() && inventory_of(b)[j] == v;
        let i = choose|i: int| 0 <= i < b.len() && device_of(b[i]) == Some(inventory_of(b)[j]);
        assert(b.contains(b[i]));
        let m = choose|m: int| 0 <= m < a.len() && a[m] == b[i];
        lemma_device_kept(a, m);
    }
}

/// An attribute with a trailing line terminator reads as the same text
/// without it, as the same count and as the same flag; an empty attribute
/// holds no value.
pub proof fn law_terminator_ignored(s: Seq<char>)
    requires
        s.len() == 0 || s.last() != '\n',
    ensures
        s.len() > 0 ==> text_of(Some(s.push('\n'))) == text_of(Some(s)),
        count_of(Some(s.push('\n'))) == count_of(Some(s)),
        flag_of(Some(s.push('\n'))) == flag_of(Some(s)),
        text_of(Some(Seq::<char>::empty())) is None,
{
    assert(s.push('\n').drop_last() =~= s);
    if s.len() == 0 {
        assert(seq!['1'].len() == 1);
    }
}

} // verus!
