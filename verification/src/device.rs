//! Device catalog: turns raw attribute reads from the USB device tree into
//! a display-ready, stably sorted list of device descriptors.
//!
//! The caller walks the device-tree root and hands over one `RawDeviceEntry`
//! per directory entry, with each optional attribute exactly as read (or
//! `None` where the attribute file was absent). Everything from there on is
//! computed and verified here: entries lacking a vendor or product id are
//! skipped, root hubs are excluded, attribute values are trimmed, display
//! names are synthesized, and the result is sorted by display name with the
//! original encounter order kept among equal names.

use vstd::prelude::*;

use crate::errors::EnumerationError;
use crate::sort::lemma_insert_sorted_by_at;
use crate::sort::lemma_sort_by_key_contains;
use crate::sort::lemma_sort_by_key_sorted;
use crate::sort::sort_by_key;
use crate::sort::sorted_by_key;
use crate::text::display_name_of;
use crate::text::lex_le;
use crate::text::lex_lt;
use crate::text::str_eq;
use crate::text::str_lex_lt;
use crate::text::trim_str;
use crate::text::trimmed;

verus! {

/// The reserved vendor id of root hubs, which are not addressable targets.
pub open spec fn root_hub_vendor_id() -> Seq<char> {
    "1d6b"@
}

/// One directory entry of the device tree, as read: the four attribute
/// files (absent vendor or product id is `None`; absent descriptive
/// attributes are empty strings) and the entry's basename.
#[derive(Debug)]
pub struct RawDeviceEntry {
    pub id_vendor: Option<String>,
    pub id_product: Option<String>,
    pub product: String,
    pub manufacturer: String,
    pub node_name: String,
}

/// A catalog entry for one attached USB device.
#[derive(Debug)]
pub struct UsbDeviceDescriptor {
    pub vendor_id: String,
    pub product_id: String,
    pub display_name: String,
    pub bus_location: String,
}

/// Mathematical image of a descriptor.
pub ghost struct DescriptorView {
    pub vendor_id: Seq<char>,
    pub product_id: Seq<char>,
    pub display_name: Seq<char>,
    pub bus_location: Seq<char>,
}

impl View for UsbDeviceDescriptor {
    type V = DescriptorView;

    open spec fn view(&self) -> DescriptorView {
        DescriptorView {
            vendor_id: self.vendor_id@,
            product_id: self.product_id@,
            display_name: self.display_name@,
            bus_location: self.bus_location@,
        }
    }
}

/// An entry stays in the catalog iff both ids are present and the trimmed
/// vendor id is not the reserved root-hub identifier.
pub open spec fn qualifies(e: RawDeviceEntry) -> bool {
    &&& e.id_vendor is Some
    &&& e.id_product is Some
    &&& trimmed((e.id_vendor->0)@) != root_hub_vendor_id()
}

/// The descriptor synthesized from a qualifying entry.
pub open spec fn descriptor_of(e: RawDeviceEntry) -> DescriptorView
    recommends
        qualifies(e),
{
    DescriptorView {
        vendor_id: trimmed((e.id_vendor->0)@),
        product_id: trimmed((e.id_product->0)@),
        display_name: display_name_of(e.manufacturer@, e.product@),
        bus_location: e.node_name@,
    }
}

/// The descriptors of the qualifying entries, in encounter order.
pub open spec fn selected(s: Seq<RawDeviceEntry>) -> Seq<DescriptorView>
    decreases s.len(),
{
    if s.len() == 0 {
        Seq::empty()
    } else {
        selected(s.drop_last()) + (if qualifies(s.last()) {
            seq![descriptor_of(s.last())]
        } else {
            Seq::empty()
        })
    }
}

/// The sort key of a descriptor: its display name.
pub open spec fn display_name_key() -> spec_fn(DescriptorView) -> Seq<char> {
    |d: DescriptorView| d.display_name
}

/// Stable insertion sort by display name.
pub open spec fn sort_by_name(s: Seq<DescriptorView>) -> Seq<DescriptorView> {
    sort_by_key(display_name_key(), s)
}

/// What the catalog of a sequence of raw entries is.
pub open spec fn catalog_spec(s: Seq<RawDeviceEntry>) -> Seq<DescriptorView> {
    sort_by_name(selected(s))
}

/// The views of a vector of descriptors.
pub open spec fn descriptor_views(s: Seq<UsbDeviceDescriptor>) -> Seq<DescriptorView> {
    s.map_values(|d: UsbDeviceDescriptor| d@)
}

/// Build the catalog from the raw entries of one enumeration pass.
///
/// Fails exactly when no entry qualifies; otherwise returns the qualifying
/// entries' descriptors sorted stably by display name.
pub fn catalog(entries: &Vec<RawDeviceEntry>) -> (r: Result<
    Vec<UsbDeviceDescriptor>,
    EnumerationError,
>)
    ensures
        match r {
            Ok(v) => selected(entries@).len() > 0 && descriptor_views(v@) == catalog_spec(
                entries@,
            ),
            Err(e) => selected(entries@).len() == 0 && e == EnumerationError::NoDevices,
        },
{
    let n = entries.len();
    let mut found: Vec<UsbDeviceDescriptor> = Vec::new();
    let mut i: usize = 0;
    proof {
        assert(entries@.take(0) =~= Seq::<RawDeviceEntry>::empty());
        assert(descriptor_views(found@) =~= selected(entries@.take(0)));
    }
    while i < n
        invariant
            0 <= i <= n,
            n == entries@.len(),
            descriptor_views(found@) == selected(entries@.take(i as int)),
        decreases n - i,
    {
        let ghost prefix = entries@.take(i as int);
        let ghost prefix1 = entries@.take(i + 1);
        proof {
            assert(prefix1.drop_last() =~= prefix);
            assert(prefix1.last() == entries@[i as int]);
        }
        let e = &entries[i];
        let mut added = false;
        match (&e.id_vendor, &e.id_product) {
            (Some(v), Some(p)) => {
                let vendor_trimmed = trim_str(v.as_str());
                if !str_eq(vendor_trimmed.as_str(), "1d6b") {
                    let product_trimmed = trim_str(p.as_str());
                    let name = crate::text::display_name(
                        e.manufacturer.as_str(),
                        e.product.as_str(),
                    );
                    let bus = e.node_name.clone();
                    found.push(
                        UsbDeviceDescriptor {
                            vendor_id: vendor_trimmed,
                            product_id: product_trimmed,
                            display_name: name,
                            bus_location: bus,
                        },
                    );
                    added = true;
                    proof {
                        assert(qualifies(entries@[i as int]));
                        assert(found@.last()@ == descriptor_of(entries@[i as int]));
                    }
                } else {
                    proof {
                        assert(!qualifies(entries@[i as int]));
                    }
                }
            },
            _ => {
                proof {
                    assert(!qualifies(entries@[i as int]));
                }
            },
        }
        proof {
            if added {
                assert(descriptor_views(found@) =~= selected(prefix) + seq![
                    descriptor_of(entries@[i as int]),
                ]);
            } else {
                assert(selected(prefix1) =~= selected(prefix));
            }
            assert(descriptor_views(found@) =~= selected(prefix1));
        }
        i = i + 1;
    }
    proof {
        assert(entries@.take(n as int) =~= entries@);
    }
    if found.len() == 0 {
        proof {
            assert(descriptor_views(found@) =~= Seq::<DescriptorView>::empty());
        }
        return Err(EnumerationError::NoDevices);
    }
    let ghost pending = descriptor_views(found@);
    let mut out: Vec<UsbDeviceDescriptor> = Vec::new();
    proof {
        assert(pending.take(0) =~= Seq::<DescriptorView>::empty());
        assert(descriptor_views(out@) =~= sort_by_name(pending.take(0)));
    }
    let mut k: usize = 0;
    while k < found.len()
        invariant
            0 <= k <= found@.len(),
            pending == descriptor_views(found@),
            descriptor_views(out@) == sort_by_name(pending.take(k as int)),
            out@.len() == k,
        decreases found@.len() - k,
    {
        let d = found[k].clone_descriptor();
        let ghost out_before = descriptor_views(out@);
        let mut pos: usize = 0;
        while pos < out.len() && !str_lex_lt(
            d.display_name.as_str(),
            out[pos].display_name.as_str(),
        )
            invariant
                0 <= pos <= out@.len(),
                descriptor_views(out@) == out_before,
                d@ == pending[k as int],
                k < pending.len(),
                forall|j: int|
                    0 <= j < pos ==> !lex_lt(d@.display_name, out_before[j].display_name),
            decreases out@.len() - pos,
        {
            proof {
                assert(out@[pos as int]@ == out_before[pos as int]);
            }
            pos = pos + 1;
        }
        proof {
            if pos < out@.len() {
                assert(lex_lt(d@.display_name, out_before[pos as int].display_name));
            }
            lemma_insert_sorted_by_at(display_name_key(), d@, out_before, pos as int);
        }
        out.insert(pos, d);
        proof {
            assert(pending.take(k + 1).drop_last() =~= pending.take(k as int));
            assert(pending.take(k + 1).last() == pending[k as int]);
            assert(descriptor_views(out@) =~= out_before.take(pos as int) + seq![pending[k as int]]
                + out_before.skip(pos as int));
            assert(descriptor_views(out@) =~= sort_by_name(pending.take(k + 1)));
        }
        k = k + 1;
    }
    proof {
        assert(pending.take(found@.len() as int) =~= pending);
    }
    Ok(out)
}

impl UsbDeviceDescriptor {
    /// An exact copy of this descriptor.
    pub fn clone_descriptor(&self) -> (r: UsbDeviceDescriptor)
        ensures
            r@ == self@,
    {
        UsbDeviceDescriptor {
            vendor_id: self.vendor_id.clone(),
            product_id: self.product_id.clone(),
            display_name: self.display_name.clone(),
            bus_location: self.bus_location.clone(),
        }
    }
}

/// A descriptor is selected from `s` iff some entry of `s` qualifies and
/// yields it.
proof fn lemma_selected_contains(s: Seq<RawDeviceEntry>, x: DescriptorView)
    ensures
        selected(s).contains(x) <==> exists|i: int|
            0 <= i < s.len() && #[trigger] qualifies(s[i]) && x == descriptor_of(s[i]),
    decreases s.len(),
{
    if s.len() > 0 {
        let dl = s.drop_last();
        lemma_selected_contains(dl, x);
        let tail: Seq<DescriptorView> = if qualifies(s.last()) {
            seq![descriptor_of(s.last())]
        } else {
            Seq::empty()
        };
        assert(selected(s) == selected(dl) + tail);
        if selected(s).contains(x) {
            let w = choose|w: int| 0 <= w < selected(s).len() && selected(s)[w] == x;
            if w < selected(dl).len() {
                assert(selected(dl)[w] == x);
                assert(selected(dl).contains(x));
                let i = choose|i: int|
                    0 <= i < dl.len() && #[trigger] qualifies(dl[i]) && x == descriptor_of(dl[i]);
                assert(dl[i] == s[i]);
                assert(qualifies(s[i]) && x == descriptor_of(s[i]));
            } else {
                assert(tail[w - selected(dl).len()] == x);
                assert(qualifies(s.last()) && x == descriptor_of(s.last()));
                assert(s[s.len() - 1] == s.last());
            }
        }
        if exists|i: int| 0 <= i < s.len() && #[trigger] qualifies(s[i]) && x == descriptor_of(
            s[i],
        ) {
            let i = choose|i: int|
                0 <= i < s.len() && #[trigger] qualifies(s[i]) && x == descriptor_of(s[i]);
            if i < s.len() - 1 {
                assert(dl[i] == s[i]);
                assert(qualifies(dl[i]) && x == descriptor_of(dl[i]));
                assert(selected(dl).contains(x));
                let w = choose|w: int| 0 <= w < selected(dl).len() && selected(dl)[w] == x;
                assert(selected(s)[w] == x);
            } else {
                assert(s[i] == s.last());
                assert(tail[0] == x);
                assert(selected(s)[selected(dl).len() as int] == x);
            }
        }
    }
}

/// An entry that lacks a vendor or a product attribute contributes nothing:
/// every catalog descriptor stems from an entry carrying both.
pub proof fn lemma_catalog_requires_both_ids(entries: Seq<RawDeviceEntry>, d: DescriptorView)
    requires
        catalog_spec(entries).contains(d),
    ensures
        exists|i: int|
            0 <= i < entries.len() && #[trigger] entries[i].id_vendor is Some
                && entries[i].id_product is Some && d == descriptor_of(entries[i]),
{
    lemma_sort_by_key_contains(display_name_key(), selected(entries), d);
    lemma_selected_contains(entries, d);
    let i = choose|i: int|
        0 <= i < entries.len() && #[trigger] qualifies(entries[i]) && d == descriptor_of(
            entries[i],
        );
    assert(entries[i].id_vendor is Some && entries[i].id_product is Some && d == descriptor_of(
        entries[i],
    ));
}

/// An entry whose trimmed vendor id is the reserved root-hub identifier is
/// excluded even when its product id is present: no catalog descriptor
/// carries that vendor id.
pub proof fn lemma_catalog_excludes_root_hub(entries: Seq<RawDeviceEntry>, d: DescriptorView)
    requires
        catalog_spec(entries).contains(d),
    ensures
        d.vendor_id != root_hub_vendor_id(),
{
    lemma_sort_by_key_contains(display_name_key(), selected(entries), d);
    lemma_selected_contains(entries, d);
    let i = choose|i: int|
        0 <= i < entries.len() && #[trigger] qualifies(entries[i]) && d == descriptor_of(
            entries[i],
        );
    assert(d.vendor_id == trimmed((entries[i].id_vendor->0)@));
}

/// The catalog is sorted by display name.
pub proof fn lemma_catalog_sorted(entries: Seq<RawDeviceEntry>)
    ensures
        forall|i: int, j: int|
            0 <= i < j < catalog_spec(entries).len() ==> lex_le(
                catalog_spec(entries)[i].display_name,
                catalog_spec(entries)[j].display_name,
            ),
{
    lemma_sort_by_key_sorted(display_name_key(), selected(entries));
    assert(sorted_by_key(display_name_key(), catalog_spec(entries)));
}

} // verus!
