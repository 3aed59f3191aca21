//! The nodes that are offered for sharing, and the objects that are our own.

use vstd::prelude::*;
use crate::json::PropView;
use crate::models::{
    devices_and_applications_say_so, offers_tell_what_the_node_tells,
    ports_with_a_path_can_be_linked, says, says_something, to_shareable_node, NodeRecord,
    PortRecord, ShareableNode, ShareableNodeView,
};
use crate::snapshot::{bears_name, node_bears_name};
use crate::table::{ids_increase, IdTable};
use crate::text::{
    cat, lower, opt_text, stands_before, text_before, text_before_total,
    text_before_transitive, text_eq, to_lower,
};

verus! {

/// Where the name of an object of ours is looked for.
#[derive(Debug, Clone, Copy, PartialEq, Eq, Structural)]
pub enum NameScope {
    /// In `node.name` alone.
    NodeName,
    /// In `node.name`, `device.name` and `node.nick`.
    AnyName,
}

pub open spec fn called(scope: NameScope, n: NodeRecord, name: Seq<char>) -> bool {
    match scope {
        NameScope::NodeName => n.text("node.name"@) == Some(name),
        NameScope::AnyName => bears_name(name)(n),
    }
}

/// The name of the source that plays what the sink receives.
pub open spec fn monitor_name(sink: Seq<char>) -> Seq<char> {
    sink + ".monitor"@
}

/// The virtual sink, its monitor and the virtual microphone.
pub open spec fn ours(
    scope: NameScope,
    sink: Seq<char>,
    mic: Option<Seq<char>>,
) -> spec_fn(NodeRecord) -> bool {
    |n: NodeRecord|
        called(scope, n, sink) || called(scope, n, monitor_name(sink)) || (mic matches Some(m)
            && called(scope, n, m))
}

/// Nodes with a linkable output that belong to an application or, where devices
/// are wanted too, to a device.
pub open spec fn offered(include_devices: bool) -> spec_fn(NodeRecord) -> bool {
    |n: NodeRecord|
        n.outputs().len() > 0 && (if n.device() {
            include_devices
        } else {
            n.app()
        })
}

/// The node of an entry as it is offered, if it is.
pub open spec fn offer(
    own: spec_fn(NodeRecord) -> bool,
    include_devices: bool,
) -> spec_fn((u32, NodeRecord)) -> Option<ShareableNodeView> {
    |e: (u32, NodeRecord)|
        if !own(e.1) && offered(include_devices)(e.1) {
            Some(e.1.shareable())
        } else {
            None
        }
}

/// All nodes that are offered, in the order of the graph.
pub open spec fn offers(
    entries: Seq<(u32, NodeRecord)>,
    own: spec_fn(NodeRecord) -> bool,
    include_devices: bool,
) -> Seq<ShareableNodeView> {
    entries.filter_map(offer(own, include_devices))
}

/// The order of the list: by name without regard to case, then by id.
pub open spec fn listed_before(a: ShareableNodeView, b: ShareableNodeView) -> bool {
    ||| text_before(lower(a.display_name), lower(b.display_name))
    ||| lower(a.display_name) == lower(b.display_name) && a.id < b.id
}

pub open spec fn in_list_order(s: Seq<ShareableNodeView>) -> bool {
    forall|i: int, j: int| 0 <= i < j < s.len() ==> !listed_before(s[j], s[i])
}

pub open spec fn shareable_views(s: Seq<ShareableNode>) -> Seq<ShareableNodeView> {
    Seq::new(s.len(), |i: int| s[i]@)
}

/// `listed` is what a user is offered of the graph: each node that qualifies,
/// once, in the order of the list.
pub open spec fn is_listing(
    listed: Seq<ShareableNodeView>,
    entries: Seq<(u32, NodeRecord)>,
    own: spec_fn(NodeRecord) -> bool,
    include_devices: bool,
) -> bool {
    &&& in_list_order(listed)
    &&& listed.to_multiset() == offers(entries, own, include_devices).to_multiset()
}

pub fn monitor_source(sink_name: &str) -> (r: String)
    ensures
        r@ == monitor_name(sink_name@),
{
    cat(sink_name, ".monitor")
}

fn is_called(scope: NameScope, node: &NodeRecord, name: &str) -> (r: bool)
    ensures
        r == called(scope, *node, name@),
{
    match scope {
        NameScope::NodeName => node.matches_prop("node.name", name),
        NameScope::AnyName => node_bears_name(node, name),
    }
}

/// Whether a node is the virtual sink, its monitor or the virtual microphone.
pub fn is_ours(
    scope: NameScope,
    node: &NodeRecord,
    sink_name: &str,
    mic_name: &Option<String>,
) -> (r: bool)
    ensures
        r == ours(scope, sink_name@, opt_text(*mic_name))(*node),
{
    if is_called(scope, node, sink_name) {
        return true;
    }
    let monitor = monitor_source(sink_name);
    if is_called(scope, node, monitor.as_str()) {
        return true;
    }
    match mic_name {
        Some(mic) => is_called(scope, node, mic.as_str()),
        None => false,
    }
}

fn is_offered(node: &NodeRecord, include_devices: bool) -> (r: bool)
    ensures
        r == offered(include_devices)(*node),
{
    let outputs = node.usable_outputs();
    if outputs.len() == 0 {
        return false;
    }
    if node.is_device() {
        include_devices
    } else {
        node.is_app()
    }
}

fn precedes(a: &ShareableNode, b: &ShareableNode) -> (r: bool)
    ensures
        r == listed_before(a@, b@),
{
    let x = to_lower(a.display_name.as_str());
    let y = to_lower(b.display_name.as_str());
    if text_eq(x.as_str(), y.as_str()) {
        proof {
            crate::text::text_before_irreflexive(x@);
        }
        a.id < b.id
    } else {
        stands_before(x.as_str(), y.as_str())
    }
}

proof fn lemma_listed_before_transitive(
    a: ShareableNodeView,
    b: ShareableNodeView,
    c: ShareableNodeView,
)
    requires
        listed_before(a, b),
        listed_before(b, c),
    ensures
        listed_before(a, c),
{
    let x = lower(a.display_name);
    let y = lower(b.display_name);
    let z = lower(c.display_name);
    if text_before(x, y) && text_before(y, z) {
        text_before_transitive(x, y, z);
    }
}

proof fn lemma_listed_before_asymmetric(a: ShareableNodeView, b: ShareableNodeView)
    requires
        listed_before(a, b),
    ensures
        !listed_before(b, a),
{
    let x = lower(a.display_name);
    let y = lower(b.display_name);
    crate::text::text_before_irreflexive(x);
    if text_before(x, y) && text_before(y, x) {
        text_before_transitive(x, y, x);
    }
}

/// Puts `node` into a list in its order.
fn insert_in_order(list: &mut Vec<ShareableNode>, node: ShareableNode)
    requires
        in_list_order(shareable_views(old(list)@)),
    ensures
        in_list_order(shareable_views(final(list)@)),
        shareable_views(final(list)@).to_multiset() == shareable_views(
            old(list)@,
        ).to_multiset().insert(node@),
{
    let ghost before = shareable_views(list@);
    let mut p: usize = 0;
    while p < list.len() && !precedes(&node, &list[p])
        invariant
            p <= list@.len(),
            before == shareable_views(list@),
            forall|i: int| 0 <= i < p ==> !listed_before(node@, before[i]),
        decreases list@.len() - p,
    {
        assert(before[p as int] == list@[p as int]@);
        p = p + 1;
    }
    let ghost v = node@;
    list.insert(p, node);
    proof {
        let after = shareable_views(list@);
        assert(after =~= before.insert(p as int, v));
        vstd::seq_lib::to_multiset_insert(before, p as int, v);
        assert forall|i: int, j: int| 0 <= i < j < after.len() implies !listed_before(
            after[j],
            after[i],
        ) by {
            if i == p {
                let x = before[j - 1];
                assert(listed_before(v, before[p as int]));
                if listed_before(x, v) {
                    lemma_listed_before_transitive(x, v, before[p as int]);
                    if j - 1 == p {
                        lemma_listed_before_asymmetric(x, v);
                    }
                }
            } else if j == p {
            } else {
                let x = if i < p {
                    i
                } else {
                    i - 1
                };
                let y = if j < p {
                    j
                } else {
                    j - 1
                };
                assert(after[i] == before[x] && after[j] == before[y]);
            }
        }
    }
}

/// The nodes that a user is offered.
pub fn list_nodes(
    nodes: &IdTable<NodeRecord>,
    scope: NameScope,
    sink_name: &str,
    mic_name: &Option<String>,
    include_devices: bool,
) -> (r: Vec<ShareableNode>)
    ensures
        is_listing(
            shareable_views(r@),
            nodes.entries(),
            ours(scope, sink_name@, opt_text(*mic_name)),
            include_devices,
        ),
{
    let ghost own = ours(scope, sink_name@, opt_text(*mic_name));
    let ghost s = nodes.entries();
    let mut r: Vec<ShareableNode> = Vec::new();
    let mut i: usize = 0;
    assert(shareable_views(r@) =~= offers(s.take(0), own, include_devices));
    while i < nodes.len()
        invariant
            s == nodes.entries(),
            own == ours(scope, sink_name@, opt_text(*mic_name)),
            i <= s.len(),
            in_list_order(shareable_views(r@)),
            shareable_views(r@).to_multiset() == offers(
                s.take(i as int),
                own,
                include_devices,
            ).to_multiset(),
        decreases s.len() - i,
    {
        let node = nodes.value_at(i);
        let ghost head = offers(s.take(i as int), own, include_devices);
        proof {
            s.lemma_filter_map_take_succ(offer(own, include_devices), i as int);
        }
        if !is_ours(scope, node, sink_name, mic_name) && is_offered(node, include_devices) {
            let shareable = to_shareable_node(node);
            proof {
                vstd::seq_lib::to_multiset_build(head, shareable@);
                assert(offers(s.take(i + 1), own, include_devices) =~= head.push(shareable@));
            }
            insert_in_order(&mut r, shareable);
        } else {
            assert(offers(s.take(i + 1), own, include_devices) =~= head);
        }
        i = i + 1;
    }
    assert(s.take(s.len() as int) =~= s);
    r
}

/// Nothing of our own is ever offered: whatever is listed is a node of the
/// graph that is not ours and that has a linkable output.
pub proof fn listing_never_offers_our_own(
    listed: Seq<ShareableNodeView>,
    entries: Seq<(u32, NodeRecord)>,
    own: spec_fn(NodeRecord) -> bool,
    include_devices: bool,
    k: int,
)
    requires
        is_listing(listed, entries, own, include_devices),
        0 <= k < listed.len(),
    ensures
        exists|e: (u32, NodeRecord)| #[trigger]
            entries.contains(e) && !own(e.1) && e.1.outputs().len() > 0 && e.1.shareable()
                == listed[k] && (e.1.device() ==> include_devices),
{
    let all = offers(entries, own, include_devices);
    assert(listed.contains(listed[k]));
    vstd::seq_lib::to_multiset_contains(listed, listed[k]);
    vstd::seq_lib::to_multiset_contains(all, listed[k]);
    entries.lemma_filter_map_contains(offer(own, include_devices), listed[k]);
    let e = choose|e: (u32, NodeRecord)| #[trigger]
        entries.contains(e) && offer(own, include_devices)(e) == Some(listed[k]);
    assert(offered(include_devices)(e.1));
}

/// Whatever qualifies is offered: no node of the graph that is not ours, has a
/// linkable output and belongs to an application, or to a device where devices
/// are wanted, is left out.
pub proof fn listing_offers_whatever_qualifies(
    listed: Seq<ShareableNodeView>,
    entries: Seq<(u32, NodeRecord)>,
    own: spec_fn(NodeRecord) -> bool,
    include_devices: bool,
    i: int,
)
    requires
        is_listing(listed, entries, own, include_devices),
        0 <= i < entries.len(),
        !own(entries[i].1),
        offered(include_devices)(entries[i].1),
    ensures
        listed.contains(entries[i].1.shareable()),
{
    let all = offers(entries, own, include_devices);
    let v = entries[i].1.shareable();
    lemma_offers_cover(entries, own, include_devices, i);
    vstd::seq_lib::to_multiset_contains(all, v);
    vstd::seq_lib::to_multiset_contains(listed, v);
}

proof fn lemma_offers_cover(
    entries: Seq<(u32, NodeRecord)>,
    own: spec_fn(NodeRecord) -> bool,
    include_devices: bool,
    i: int,
)
    requires
        0 <= i < entries.len(),
        !own(entries[i].1),
        offered(include_devices)(entries[i].1),
    ensures
        offers(entries, own, include_devices).contains(entries[i].1.shareable()),
    decreases entries.len(),
{
    let n = entries.len() - 1;
    let head = entries.take(n);
    entries.lemma_filter_map_take_succ(offer(own, include_devices), n);
    assert(entries.take(n + 1) =~= entries);
    let all = offers(entries, own, include_devices);
    let before = offers(head, own, include_devices);
    if i == n {
        assert(all[before.len() as int] == entries[i].1.shareable());
    } else {
        assert(head[i] == entries[i]);
        lemma_offers_cover(head, own, include_devices, i);
        let k = before.index_of(entries[i].1.shareable());
        assert(all[k] == before[k]);
    }
}

/// No two of the views have one id.
pub open spec fn ids_differ(s: Seq<ShareableNodeView>) -> bool {
    forall|i: int, j: int| 0 <= i < j < s.len() ==> (#[trigger] s[i]).id != (#[trigger] s[j]).id
}

proof fn lemma_last_is_shared(a: Seq<ShareableNodeView>, b: Seq<ShareableNodeView>)
    requires
        a.len() > 0,
        in_list_order(a),
        in_list_order(b),
        ids_differ(a),
        a.to_multiset() == b.to_multiset(),
    ensures
        b.len() == a.len(),
        a.last() == b.last(),
{
    a.to_multiset_ensures();
    b.to_multiset_ensures();
    assert(b.len() == a.len());
    let x = a.last();
    let y = b.last();
    assert(a.contains(x) && b.contains(y));
    vstd::seq_lib::to_multiset_contains(a, x);
    vstd::seq_lib::to_multiset_contains(b, x);
    vstd::seq_lib::to_multiset_contains(b, y);
    vstd::seq_lib::to_multiset_contains(a, y);
    let i = a.index_of(y);
    let j = b.index_of(x);
    if x != y {
        assert(i < a.len() - 1);
        assert(j < b.len() - 1);
        assert(!listed_before(a[a.len() - 1], a[i]));
        assert(!listed_before(b[b.len() - 1], b[j]));
        assert(a[i].id != a[a.len() - 1].id);
        text_before_total(lower(x.display_name), lower(y.display_name));
    }
}

/// Two lists of the same nodes, which have different ids, are the same.
proof fn lemma_listings_agree(a: Seq<ShareableNodeView>, b: Seq<ShareableNodeView>)
    requires
        in_list_order(a),
        in_list_order(b),
        ids_differ(a),
        a.to_multiset() == b.to_multiset(),
    ensures
        a == b,
    decreases a.len(),
{
    a.to_multiset_ensures();
    b.to_multiset_ensures();
    assert(a.len() == b.len());
    if a.len() > 0 {
        lemma_last_is_shared(a, b);
        let x = a.drop_last();
        let y = b.drop_last();
        vstd::seq_lib::to_multiset_build(x, a.last());
        vstd::seq_lib::to_multiset_build(y, b.last());
        assert(x.push(a.last()) =~= a);
        assert(y.push(b.last()) =~= b);
        assert(x.to_multiset() =~= a.to_multiset().remove(a.last()));
        assert(y.to_multiset() =~= b.to_multiset().remove(b.last()));
        lemma_listings_agree(x, y);
    } else {
        assert(a =~= b);
    }
}

proof fn lemma_offered_ids_differ(
    entries: Seq<(u32, NodeRecord)>,
    own: spec_fn(NodeRecord) -> bool,
    include_devices: bool,
)
    requires
        ids_increase(entries),
        forall|i: int| 0 <= i < entries.len() ==> (#[trigger] entries[i]).1.id == entries[i].0,
    ensures
        ids_differ(offers(entries, own, include_devices)),
        forall|k: int|
            0 <= k < offers(entries, own, include_devices).len() ==> entries.len() > 0 && (
            #[trigger] offers(entries, own, include_devices)[k]).id <= entries.last().0,
    decreases entries.len(),
{
    let all = offers(entries, own, include_devices);
    if entries.len() > 0 {
        let n = entries.len() - 1;
        let head = entries.take(n);
        let before = offers(head, own, include_devices);
        entries.lemma_filter_map_take_succ(offer(own, include_devices), n);
        assert(entries.take(n + 1) =~= entries);
        assert forall|i: int| 0 <= i < head.len() implies (#[trigger] head[i]).1.id
            == head[i].0 by {
            assert(head[i] == entries[i]);
        }
        lemma_offered_ids_differ(head, own, include_devices);
        assert forall|k: int| 0 <= k < all.len() implies (#[trigger] all[k]).id
            <= entries.last().0 && (k < before.len() ==> all[k] == before[k] && all[k].id
            < entries.last().0) by {
            if k < before.len() {
                assert(all[k] == before[k]);
                assert(before[k].id <= head.last().0);
                assert(entries[n - 1].0 < entries[n].0);
            }
        }
        assert forall|i: int, j: int| 0 <= i < j < all.len() implies (#[trigger] all[i]).id != (
        #[trigger] all[j]).id by {
            if j < before.len() {
                assert(before[i].id != before[j].id);
            } else {
                assert(all[i].id < entries.last().0);
                assert(all[j].id == entries[n].1.id);
            }
        }
    }
}

/// The list is determined by the graph, in which each node stands under its own
/// id.
pub proof fn graph_determines_the_list(
    a: Seq<ShareableNodeView>,
    b: Seq<ShareableNodeView>,
    entries: Seq<(u32, NodeRecord)>,
    own: spec_fn(NodeRecord) -> bool,
    include_devices: bool,
)
    requires
        is_listing(a, entries, own, include_devices),
        is_listing(b, entries, own, include_devices),
        ids_increase(entries),
        forall|i: int| 0 <= i < entries.len() ==> (#[trigger] entries[i]).1.id == entries[i].0,
    ensures
        a == b,
{
    let all = offers(entries, own, include_devices);
    lemma_offered_ids_differ(entries, own, include_devices);
    assert(all.no_duplicates()) by {
        assert forall|i: int, j: int| 0 <= i < all.len() && 0 <= j < all.len() && i != j implies all[i]
            != all[j] by {
            if i < j {
                assert(all[i].id != all[j].id);
            } else {
                assert(all[j].id != all[i].id);
            }
        }
    }
    all.lemma_multiset_has_no_duplicates();
    a.lemma_multiset_has_no_duplicates_conv();
    assert forall|i: int, j: int| 0 <= i < j < a.len() implies (#[trigger] a[i]).id != (
    #[trigger] a[j]).id by {
        assert(a.contains(a[i]) && a.contains(a[j]));
        vstd::seq_lib::to_multiset_contains(a, a[i]);
        vstd::seq_lib::to_multiset_contains(a, a[j]);
        vstd::seq_lib::to_multiset_contains(all, a[i]);
        vstd::seq_lib::to_multiset_contains(all, a[j]);
        let p = all.index_of(a[i]);
        let q = all.index_of(a[j]);
        assert(all[p] == a[i] && all[q] == a[j]);
        assert(p != q);
        if p < q {
            assert(all[p].id != all[q].id);
        } else {
            assert(all[q].id != all[p].id);
        }
    }
    lemma_listings_agree(a, b);
}

/// A node of an application that is not our own and has an output to link is in
/// the list, whatever else it tells: it need but tell the name or the binary of
/// the application, and neither a device id nor a media class of a device.
pub proof fn applications_that_play_are_listed(
    listed: Seq<ShareableNodeView>,
    entries: Seq<(u32, NodeRecord)>,
    own: spec_fn(NodeRecord) -> bool,
    include_devices: bool,
    i: int,
    port: PortRecord,
)
    requires
        is_listing(listed, entries, own, include_devices),
        0 <= i < entries.len(),
        !own(entries[i].1),
        ({
            let n = entries[i].1;
            &&& n.ports@.contains(port) && port.direction is Output && port.path is Some
            &&& says_something(n.props@, "application.name"@) || says_something(
                n.props@,
                "application.process.binary"@,
            )
            &&& !says_something(n.props@, "device.id"@)
            &&& forall|rest: Seq<char>|
                !says(n.props@, "media.class"@, #[trigger] ("Audio/Sink"@ + rest))
            &&& forall|rest: Seq<char>|
                !says(n.props@, "media.class"@, #[trigger] ("Audio/Source"@ + rest))
        }),
    ensures
        exists|k: int| 0 <= k < listed.len() && (#[trigger] listed[k]).id == entries[i].1.id,
        listed.contains(entries[i].1.shareable()),
{
    let n = entries[i].1;
    devices_and_applications_say_so(n);
    ports_with_a_path_can_be_linked(n, port);
    assert(n.outputs().len() > 0);
    listing_offers_whatever_qualifies(listed, entries, own, include_devices, i);
    offers_tell_what_the_node_tells(n, Seq::empty());
    let k = listed.index_of(n.shareable());
    assert(listed[k].id == n.id);
}

/// A node of a device that is not our own and has an output to link is in the
/// list where devices are wanted, and only there.
pub proof fn devices_that_play_are_listed_where_wanted(
    listed: Seq<ShareableNodeView>,
    entries: Seq<(u32, NodeRecord)>,
    own: spec_fn(NodeRecord) -> bool,
    include_devices: bool,
    i: int,
    port: PortRecord,
    rest: Seq<char>,
)
    requires
        is_listing(listed, entries, own, include_devices),
        0 <= i < entries.len(),
        !own(entries[i].1),
        forall|j: int, k: int|
            0 <= j < k < entries.len() ==> (#[trigger] entries[j]).1.id != (
            #[trigger] entries[k]).1.id,
        ({
            let n = entries[i].1;
            &&& n.ports@.contains(port) && port.direction is Output && port.path is Some
            &&& says_something(n.props@, "device.id"@) || says(
                n.props@,
                "media.class"@,
                "Audio/Sink"@ + rest,
            ) || says(n.props@, "media.class"@, "Audio/Source"@ + rest)
        }),
    ensures
        (exists|k: int| 0 <= k < listed.len() && (#[trigger] listed[k]).id == entries[i].1.id)
            == include_devices,
{
    let n = entries[i].1;
    let whole = "Audio/Sink"@ + rest;
    devices_and_applications_say_so(n);
    ports_with_a_path_can_be_linked(n, port);
    assert(n.outputs().len() > 0);
    if include_devices {
        listing_offers_whatever_qualifies(listed, entries, own, include_devices, i);
        offers_tell_what_the_node_tells(n, Seq::empty());
        let k = listed.index_of(n.shareable());
        assert(listed[k].id == n.id);
    } else {
        assert forall|k: int| 0 <= k < listed.len() implies (#[trigger] listed[k]).id != n.id by {
            listing_never_offers_our_own(listed, entries, own, include_devices, k);
            let e = choose|e: (u32, NodeRecord)| #[trigger]
                entries.contains(e) && !own(e.1) && e.1.outputs().len() > 0 && e.1.shareable()
                    == listed[k] && (e.1.device() ==> include_devices);
            offers_tell_what_the_node_tells(e.1, Seq::empty());
            let j = entries.index_of(e);
            if j < i {
                assert(entries[j].1.id != entries[i].1.id);
            } else if i < j {
                assert(entries[i].1.id != entries[j].1.id);
            }
        }
    }
}

/// Whatever is listed plays: it is what some node of the graph tells of itself,
/// and that node is not our own, has an output with a path, and is a device or
/// an application.
pub proof fn whatever_is_listed_plays(
    listed: Seq<ShareableNodeView>,
    entries: Seq<(u32, NodeRecord)>,
    own: spec_fn(NodeRecord) -> bool,
    include_devices: bool,
    k: int,
) -> (i: int)
    requires
        is_listing(listed, entries, own, include_devices),
        0 <= k < listed.len(),
    ensures
        0 <= i < entries.len(),
        listed[k].id == entries[i].1.id,
        !own(entries[i].1),
        exists|p: PortRecord| #[trigger]
            entries[i].1.ports@.contains(p) && p.direction is Output && p.path is Some,
        listed[k].is_device ==> include_devices,
        !listed[k].is_device ==> says_something(entries[i].1.props@, "application.name"@)
            || says_something(entries[i].1.props@, "application.process.binary"@),
{
    let all = offers(entries, own, include_devices);
    assert(listed.contains(listed[k]));
    vstd::seq_lib::to_multiset_contains(listed, listed[k]);
    vstd::seq_lib::to_multiset_contains(all, listed[k]);
    entries.lemma_filter_map_contains(offer(own, include_devices), listed[k]);
    let e = choose|e: (u32, NodeRecord)| #[trigger]
        entries.contains(e) && offer(own, include_devices)(e) == Some(listed[k]);
    assert(offered(include_devices)(e.1));
    offers_tell_what_the_node_tells(e.1, Seq::empty());
    devices_and_applications_say_so(e.1);
    let p = e.1.outputs()[0];
    assert(e.1.outputs().contains(p));
    ports_with_a_path_can_be_linked(e.1, p);
    entries.index_of(e)
}

/// Property `key` is the name of the sink, of its monitor or of the microphone.
pub open spec fn says_our_name(
    props: Map<Seq<char>, PropView>,
    key: Seq<char>,
    sink: Seq<char>,
    mic: Option<Seq<char>>,
) -> bool {
    says(props, key, sink) || says(props, key, sink + ".monitor"@) || (mic matches Some(m) && says(
        props,
        key,
        m,
    ))
}

/// The sink, its monitor and the microphone are our own, each by its name, and
/// nothing else is. The name is looked for in `node.name` or, where any name
/// counts, in `device.name` and `node.nick` too.
pub proof fn our_own_are_known_by_name(n: NodeRecord, sink: Seq<char>, mic: Option<Seq<char>>)
    ensures
        ours(NameScope::NodeName, sink, mic)(n) == says_our_name(
            n.props@,
            "node.name"@,
            sink,
            mic,
        ),
        ours(NameScope::AnyName, sink, mic)(n) == (says_our_name(
            n.props@,
            "node.name"@,
            sink,
            mic,
        ) || says_our_name(n.props@, "device.name"@, sink, mic) || says_our_name(
            n.props@,
            "node.nick"@,
            sink,
            mic,
        )),
{
}

/// The list is in the order of the names without regard to case: where two
/// names first differ, the smaller character comes first, and equal names stand
/// in the order of the ids.
pub proof fn the_list_is_in_the_order_of_names(
    listed: Seq<ShareableNodeView>,
    i: int,
    j: int,
    same: Seq<char>,
    a: Seq<char>,
    b: Seq<char>,
)
    requires
        in_list_order(listed),
        0 <= i < j < listed.len(),
        lower(listed[i].display_name) == same + a,
        lower(listed[j].display_name) == same + b,
        a.len() > 0 && b.len() > 0 ==> a[0] != b[0],
    ensures
        a.len() == 0 && b.len() == 0 ==> listed[i].id <= listed[j].id,
        a.len() > 0 ==> b.len() > 0 && a[0] < b[0],
{
    crate::text::the_first_difference_decides(same, b, a);
    assert(!listed_before(listed[j], listed[i]));
    if a.len() == 0 && b.len() == 0 {
        assert(a =~= b);
    }
}

/// Whoever lists the nodes of a graph is given every application that plays and
/// is not our own: a node that tells the name or the binary of an application,
/// has an output with a path and is no device stands in the list, whatever its
/// other properties are.
pub proof fn every_application_that_plays_is_given(
    nodes: IdTable<NodeRecord>,
    sink_name: &str,
    mic_name: Option<String>,
    include_devices: bool,
    r: Vec<ShareableNode>,
    i: int,
    port: PortRecord,
)
    requires
        call_ensures(
            list_nodes,
            (&nodes, NameScope::NodeName, sink_name, &mic_name, include_devices),
            r,
        ),
        0 <= i < nodes.entries().len(),
        ({
            let n = nodes.entries()[i].1;
            &&& !says_our_name(n.props@, "node.name"@, sink_name@, opt_text(mic_name))
            &&& n.ports@.contains(port) && port.direction is Output && port.path is Some
            &&& says_something(n.props@, "application.name"@) || says_something(
                n.props@,
                "application.process.binary"@,
            )
            &&& !says_something(n.props@, "device.id"@)
            &&& forall|rest: Seq<char>|
                !says(n.props@, "media.class"@, #[trigger] ("Audio/Sink"@ + rest))
            &&& forall|rest: Seq<char>|
                !says(n.props@, "media.class"@, #[trigger] ("Audio/Source"@ + rest))
        }),
    ensures
        exists|k: int| 0 <= k < r@.len() && (#[trigger] r@[k]).id == nodes.entries()[i].1.id,
{
    let n = nodes.entries()[i].1;
    let listed = shareable_views(r@);
    let own = ours(NameScope::NodeName, sink_name@, opt_text(mic_name));
    our_own_are_known_by_name(n, sink_name@, opt_text(mic_name));
    applications_that_play_are_listed(listed, nodes.entries(), own, include_devices, i, port);
    let k = choose|k: int| 0 <= k < listed.len() && (#[trigger] listed[k]).id == n.id;
    assert(r@[k].id == n.id);
}

} // verus!
