//! Pools, devices and datasets, as read from the containers that the control
//! device returns.

use crate::nvenums::VdevType;
use crate::nvpair::{
    lemma_position_of, lists_of, position_of, spec_get_c_string, spec_get_list,
    spec_get_list_slice, spec_get_u64, spec_get_u64_slice, Entry, PairList, Value,
};
use crate::nvtypes::VdevStats;
use crate::util::{utf8_lossy, AutoString};
use crate::wire::bytes_eq;
use std::collections::VecDeque;
use vstd::prelude::*;
use vstd::string::StringSliceAdditionalSpecFns;
use vstd::utf8::{decode_utf8, valid_utf8};

verus! {

/// The number of containers in `v`, nested ones included.
pub open spec fn value_nodes(v: Value) -> nat
    decreases v,
{
    match v {
        Value::List(l) => 1 + entries_nodes(l),
        Value::ListArray(a) => lists_nodes(a),
        _ => 0,
    }
}

/// The number of containers in the values of `l`, nested ones included.
pub open spec fn entries_nodes(l: Seq<Entry>) -> nat
    decreases l,
{
    if l.len() == 0 {
        0
    } else {
        value_nodes(l.last().value) + entries_nodes(l.drop_last())
    }
}

/// The number of containers in `a`: its elements and all that is nested in
/// them.
pub open spec fn lists_nodes(a: Seq<Seq<Entry>>) -> nat
    decreases a,
{
    if a.len() == 0 {
        0
    } else {
        1 + entries_nodes(a.last()) + lists_nodes(a.drop_last())
    }
}

proof fn lemma_lists_nodes_add(a: Seq<Seq<Entry>>, b: Seq<Seq<Entry>>)
    ensures
        lists_nodes(a + b) == lists_nodes(a) + lists_nodes(b),
    decreases b.len(),
{
    if b.len() == 0 {
        assert(a + b =~= a);
    } else {
        lemma_lists_nodes_add(a, b.drop_last());
        assert((a + b).drop_last() =~= a + b.drop_last());
        assert((a + b).last() == b.last());
    }
}

proof fn lemma_lists_nodes_first(q: Seq<Seq<Entry>>)
    requires
        q.len() > 0,
    ensures
        lists_nodes(q) == 1 + entries_nodes(q.first()) + lists_nodes(q.drop_first()),
{
    let head = seq![q.first()];
    assert(head + q.drop_first() =~= q);
    lemma_lists_nodes_add(head, q.drop_first());
    assert(head.drop_last() =~= Seq::<Seq<Entry>>::empty());
    assert(lists_nodes(head) == 1 + entries_nodes(head.last()) + lists_nodes(head.drop_last()));
}

proof fn lemma_entry_nodes_bound(l: Seq<Entry>, i: int)
    requires
        0 <= i < l.len(),
    ensures
        value_nodes(l[i].value) <= entries_nodes(l),
    decreases l.len(),
{
    if i < l.len() - 1 {
        lemma_entry_nodes_bound(l.drop_last(), i);
    }
}

/// The name of the field that holds a device's identifier.
pub open spec fn key_guid() -> Seq<u8> {
    "guid".spec_bytes()
}

/// The name of the field that holds a device's children.
pub open spec fn key_children() -> Seq<u8> {
    "children".spec_bytes()
}

/// The children of a node of the device tree: the containers of its
/// `children` field, or none where it has no such field.
pub open spec fn spec_children(vd: Seq<Entry>) -> Seq<Seq<Entry>> {
    match spec_get_list_slice(vd, key_children()) {
        Some(c) => c,
        None => Seq::empty(),
    }
}

proof fn lemma_children_nodes(vd: Seq<Entry>)
    ensures
        lists_nodes(spec_children(vd)) <= entries_nodes(vd),
{
    if let Some(c) = spec_get_list_slice(vd, key_children()) {
        let i = position_of(vd, key_children(), 0);
        lemma_position_of(vd, key_children(), 0);
        lemma_entry_nodes_bound(vd, i);
    }
}

/// The outcome of a breadth-first search for the device `guid` that has the
/// nodes of `queue` still to visit, first to last.
///
/// The first node is visited: where its `guid` field holds `guid`, it is the
/// one; where it holds another number, its children are put behind the nodes
/// that wait; a node without such a field is passed over together with what
/// is below it.
pub open spec fn bfs(queue: Seq<Seq<Entry>>, guid: u64) -> Option<Seq<Entry>>
    decreases lists_nodes(queue),
    via bfs_decreases
{
    if queue.len() == 0 {
        None
    } else {
        let vd = queue.first();
        match spec_get_u64(vd, key_guid()) {
            Some(g) => if g == guid {
                Some(vd)
            } else {
                bfs(queue.drop_first() + spec_children(vd), guid)
            },
            None => bfs(queue.drop_first(), guid),
        }
    }
}

#[via_fn]
proof fn bfs_decreases(queue: Seq<Seq<Entry>>, guid: u64) {
    if queue.len() > 0 {
        lemma_lists_nodes_first(queue);
        lemma_children_nodes(queue.first());
        lemma_lists_nodes_add(queue.drop_first(), spec_children(queue.first()));
    }
}

/// The device `guid` of the tree whose root is `top`: the first node, going
/// through the tree breadth first, whose `guid` field holds `guid`.
pub open spec fn spec_find_vdev(top: Seq<Entry>, guid: u64) -> Option<Seq<Entry>> {
    bfs(seq![top], guid)
}

/// Whether the node `vd` is the device `guid`: its `guid` field holds
/// `guid`.
pub open spec fn is_vdev(vd: Seq<Entry>, guid: u64) -> bool {
    spec_get_u64(vd, key_guid()) == Some(guid)
}

/// The node that a search finds is the device that was looked for.
pub proof fn lemma_bfs_found(queue: Seq<Seq<Entry>>, guid: u64)
    ensures
        bfs(queue, guid) matches Some(vd) ==> is_vdev(vd, guid),
    decreases lists_nodes(queue),
{
    if queue.len() > 0 {
        let vd = queue.first();
        lemma_lists_nodes_first(queue);
        lemma_children_nodes(vd);
        lemma_lists_nodes_add(queue.drop_first(), spec_children(vd));
        match spec_get_u64(vd, key_guid()) {
            Some(g) => {
                if g != guid {
                    lemma_bfs_found(queue.drop_first() + spec_children(vd), guid);
                }
            },
            None => {
                lemma_bfs_found(queue.drop_first(), guid);
            },
        }
    }
}

/// The search is breadth first: a device that waits in the queue is found
/// before anything below the nodes in front of it. Where the node at
/// position `k` is the device and no node in front of it is, the search
/// finds that node, whatever the nodes in front of it have below them.
pub proof fn lemma_bfs_first_in_queue(queue: Seq<Seq<Entry>>, guid: u64, k: int)
    requires
        0 <= k < queue.len(),
        is_vdev(queue[k], guid),
        forall|j: int| 0 <= j < k ==> !is_vdev(#[trigger] queue[j], guid),
    ensures
        bfs(queue, guid) == Some(queue[k]),
    decreases k,
{
    if k > 0 {
        let vd = queue.first();
        let next = match spec_get_u64(vd, key_guid()) {
            Some(_) => queue.drop_first() + spec_children(vd),
            None => queue.drop_first(),
        };
        assert(!is_vdev(queue[0], guid));
        assert(next[k - 1] == queue[k]);
        assert forall|j: int| 0 <= j < k - 1 implies !is_vdev(#[trigger] next[j], guid) by {
            assert(next[j] == queue[j + 1]);
        }
        lemma_bfs_first_in_queue(next, guid, k - 1);
    }
}

/// A root that is the device is found; where it is another device, and one
/// of its children is the device and no child in front of that one is, that
/// child is found, whatever stands in the tree below the children.
pub proof fn lemma_find_vdev_shallow(top: Seq<Entry>, guid: u64, k: int)
    ensures
        is_vdev(top, guid) ==> spec_find_vdev(top, guid) == Some(top),
        (spec_get_u64(top, key_guid()) is Some && !is_vdev(top, guid) && 0 <= k < spec_children(
            top,
        ).len() && is_vdev(spec_children(top)[k], guid) && forall|j: int|
            0 <= j < k ==> !is_vdev(#[trigger] spec_children(top)[j], guid))
            ==> spec_find_vdev(top, guid) == Some(spec_children(top)[k]),
        spec_find_vdev(top, guid) matches Some(vd) ==> is_vdev(vd, guid),
{
    let queue = seq![top];
    lemma_bfs_found(queue, guid);
    if is_vdev(top, guid) {
        lemma_bfs_first_in_queue(queue, guid, 0);
    }
    if spec_get_u64(top, key_guid()) is Some && !is_vdev(top, guid) && 0 <= k < spec_children(
        top,
    ).len() && is_vdev(spec_children(top)[k], guid) && forall|j: int|
        0 <= j < k ==> !is_vdev(#[trigger] spec_children(top)[j], guid) {
        let next = queue.drop_first() + spec_children(top);
        assert(next =~= spec_children(top));
        lemma_bfs_first_in_queue(next, guid, k);
    }
}

/// The containers that the nodes waiting in a queue stand for.
pub open spec fn queue_of(q: Seq<&PairList>) -> Seq<Seq<Entry>> {
    Seq::new(q.len(), |i: int| q[i]@)
}

/// Finds the device `guid` in the tree whose root is `top`, going through
/// the tree breadth first.
pub fn find_vdev<'a>(top: &'a PairList, guid: u64) -> (r: Option<&'a PairList>)
    ensures
        match r {
            Some(vd) => spec_find_vdev(top@, guid) == Some(vd@),
            None => spec_find_vdev(top@, guid) is None,
        },
{
    let mut vds: VecDeque<&PairList> = VecDeque::new();
    vds.push_back(top);
    proof {
        assert(queue_of(vds@) =~= seq![top@]);
    }
    loop
        invariant
            bfs(queue_of(vds@), guid) == spec_find_vdev(top@, guid),
        decreases lists_nodes(queue_of(vds@)),
    {
        let ghost queue = queue_of(vds@);
        let vd = match vds.pop_front() {
            Some(vd) => vd,
            None => {
                return None;
            },
        };
        proof {
            assert(queue_of(vds@) =~= queue.drop_first());
            assert(queue.first() == vd@);
            lemma_lists_nodes_first(queue);
            lemma_children_nodes(vd@);
            lemma_lists_nodes_add(queue.drop_first(), spec_children(vd@));
        }
        match vd.get_u64("guid".as_bytes()) {
            Some(vguid) => {
                if vguid == guid {
                    return Some(vd);
                }
                match vd.get_list_slice("children".as_bytes()) {
                    Some(cs) => {
                        let mut i: usize = 0;
                        while i < cs.len()
                            invariant
                                i <= cs@.len(),
                                queue_of(vds@) == queue.drop_first() + lists_of(cs@).subrange(
                                    0,
                                    i as int,
                                ),
                            decreases cs@.len() - i,
                        {
                            let ghost before = queue_of(vds@);
                            vds.push_back(&cs[i]);
                            proof {
                                assert(queue_of(vds@) =~= before.push(cs@[i as int]@));
                                assert(queue_of(vds@) =~= queue.drop_first() + lists_of(
                                    cs@,
                                ).subrange(0, i + 1));
                            }
                            i += 1;
                        }
                        proof {
                            assert(lists_of(cs@).subrange(0, cs@.len() as int) =~= lists_of(cs@));
                        }
                    },
                    None => {
                        proof {
                            assert(queue.drop_first() + Seq::<Seq<Entry>>::empty()
                                =~= queue.drop_first());
                        }
                    },
                }
            },
            None => {},
        }
    }
}

/// An expected field is absent.
#[derive(Debug, Clone, Copy, PartialEq, Eq, Structural)]
pub enum LookupError {
    NotFound,
}

/// The name of the field of a pool's statistics that holds its device tree.
pub open spec fn key_vdev_tree() -> Seq<u8> {
    "vdev_tree".spec_bytes()
}

/// The name of the field that holds a device's type.
pub open spec fn key_type() -> Seq<u8> {
    "type".spec_bytes()
}

/// The name of the field that holds a device's statistics.
pub open spec fn key_vdev_stats() -> Seq<u8> {
    "vdev_stats".spec_bytes()
}

/// The name of the field of a property that holds its value.
pub open spec fn key_value() -> Seq<u8> {
    "value".spec_bytes()
}

/// The byte that separates the parts of a dataset's name.
pub const SEPARATOR: u8 = 0x2f;

/// The device `guid` of the pool whose statistics are `stats`: it is looked
/// for in the pool's device tree, and a pool without one is an error.
pub open spec fn spec_get_vdev(stats: Seq<Entry>, guid: u64) -> Result<
    Option<Seq<Entry>>,
    LookupError,
> {
    match spec_get_list(stats, key_vdev_tree()) {
        Some(top) => Ok(spec_find_vdev(top, guid)),
        None => Err(LookupError::NotFound),
    }
}

/// Finds the device `guid` in the device tree of the pool whose statistics
/// are `stats`.
pub fn get_vdev<'a>(stats: &'a PairList, guid: u64) -> (r: Result<
    Option<&'a PairList>,
    LookupError,
>)
    ensures
        match r {
            Ok(Some(vd)) => spec_get_vdev(stats@, guid) == Ok::<Option<Seq<Entry>>, LookupError>(
                Some(vd@),
            ),
            Ok(None) => spec_get_vdev(stats@, guid) == Ok::<Option<Seq<Entry>>, LookupError>(None),
            Err(e) => spec_get_vdev(stats@, guid) == Err::<Option<Seq<Entry>>, LookupError>(e),
        },
{
    match stats.get_list("vdev_tree".as_bytes()) {
        Some(top) => Ok(find_vdev(top, guid)),
        None => Err(LookupError::NotFound),
    }
}

/// What a device is known by.
pub struct VdevView {
    /// The name of the pool that the device belongs to.
    pub pool: Seq<u8>,
    /// The device's identifier, which no other device of the pool has.
    pub guid: u64,
    /// The device's kind.
    pub typ: VdevType,
}

/// A device of a pool.
#[derive(Debug)]
pub struct Vdev {
    pool: AutoString,
    guid: u64,
    typ: VdevType,
}

impl View for Vdev {
    type V = VdevView;

    closed spec fn view(&self) -> VdevView {
        VdevView { pool: self.pool@, guid: self.guid, typ: self.typ }
    }
}

/// The device of the pool `pool` that the node `vl` of the device tree
/// describes: a node needs a `guid` number and a `type` string.
pub open spec fn spec_vdev(pool: Seq<u8>, vl: Seq<Entry>) -> Result<VdevView, LookupError> {
    match (spec_get_u64(vl, key_guid()), spec_get_c_string(vl, key_type())) {
        (Some(guid), Some(typ)) => Ok(VdevView { pool, guid, typ: VdevType::spec_from(typ) }),
        _ => Err(LookupError::NotFound),
    }
}

/// The devices that the nodes `nodes` describe, in order; a node that
/// describes none is left out.
pub open spec fn spec_vdevs(pool: Seq<u8>, nodes: Seq<Seq<Entry>>) -> Seq<VdevView>
    decreases nodes.len(),
{
    if nodes.len() == 0 {
        Seq::empty()
    } else {
        let head = spec_vdevs(pool, nodes.drop_last());
        match spec_vdev(pool, nodes.last()) {
            Ok(v) => head.push(v),
            Err(_) => head,
        }
    }
}

/// The children of the device `guid` of the pool `pool` whose statistics are
/// `stats`. A device that is not in the tree has none.
pub open spec fn spec_vdev_children(pool: Seq<u8>, guid: u64, stats: Seq<Entry>) -> Result<
    Seq<VdevView>,
    LookupError,
> {
    match spec_get_vdev(stats, guid) {
        Err(e) => Err(e),
        Ok(None) => Ok(Seq::empty()),
        Ok(Some(vd)) => Ok(spec_vdevs(pool, spec_children(vd))),
    }
}

/// The statistics of the device `guid` of the pool whose statistics are
/// `stats`. A device that is not in the tree, or that has no `vdev_stats`
/// array, has statistics of zeros.
pub open spec fn spec_vdev_stats(guid: u64, stats: Seq<Entry>) -> Result<VdevStats, LookupError> {
    match spec_get_vdev(stats, guid) {
        Err(e) => Err(e),
        Ok(None) => Ok(VdevStats::spec_from(Seq::empty())),
        Ok(Some(vd)) => match spec_get_u64_slice(vd, key_vdev_stats()) {
            Some(words) => Ok(VdevStats::spec_from(words)),
            None => Ok(VdevStats::spec_from(Seq::empty())),
        },
    }
}

/// What the devices of a vector stand for.
pub open spec fn vdevs_of(v: Seq<Vdev>) -> Seq<VdevView> {
    Seq::new(v.len(), |i: int| v[i]@)
}

impl Vdev {
    /// Makes the device of the pool `pool` that the node `vl` of the device
    /// tree describes.
    pub fn new(pool: AutoString, vl: &PairList) -> (r: Result<Vdev, LookupError>)
        ensures
            match r {
                Ok(v) => spec_vdev(pool@, vl@) == Ok::<VdevView, LookupError>(v@),
                Err(e) => spec_vdev(pool@, vl@) == Err::<VdevView, LookupError>(e),
            },
    {
        let guid = match vl.get_u64("guid".as_bytes()) {
            Some(g) => g,
            None => {
                return Err(LookupError::NotFound);
            },
        };
        let typ = match vl.get_c_string("type".as_bytes()) {
            Some(t) => t,
            None => {
                return Err(LookupError::NotFound);
            },
        };
        Ok(Vdev { pool, guid, typ: VdevType::from(typ.as_slice()) })
    }

    /// The name of the pool that the device belongs to.
    pub fn pool(&self) -> (r: &AutoString)
        ensures
            r@ == self@.pool,
    {
        &self.pool
    }

    /// The device's identifier.
    pub fn guid(&self) -> (r: u64)
        ensures
            r == self@.guid,
    {
        self.guid
    }

    /// The device's kind.
    pub fn typ(&self) -> (r: VdevType)
        ensures
            r == self@.typ,
    {
        self.typ
    }

    /// The children of the device, as the statistics `stats` of its pool
    /// show them.
    pub fn children(&self, stats: &PairList) -> (r: Result<Vec<Vdev>, LookupError>)
        ensures
            match r {
                Ok(v) => spec_vdev_children(self@.pool, self@.guid, stats@) == Ok::<
                    Seq<VdevView>,
                    LookupError,
                >(vdevs_of(v@)),
                Err(e) => spec_vdev_children(self@.pool, self@.guid, stats@) == Err::<
                    Seq<VdevView>,
                    LookupError,
                >(e),
            },
    {
        let found = match get_vdev(stats, self.guid) {
            Ok(f) => f,
            Err(e) => {
                return Err(e);
            },
        };
        let mut out: Vec<Vdev> = Vec::new();
        proof {
            assert(vdevs_of(out@) =~= Seq::empty());
        }
        let vd = match found {
            Some(vd) => vd,
            None => {
                return Ok(out);
            },
        };
        let nodes = match vd.get_list_slice("children".as_bytes()) {
            Some(s) => s,
            None => {
                return Ok(out);
            },
        };
        let mut i: usize = 0;
        proof {
            assert(lists_of(nodes@).subrange(0, 0) =~= Seq::empty());
        }
        while i < nodes.len()
            invariant
                i <= nodes@.len(),
                vdevs_of(out@) == spec_vdevs(self@.pool, lists_of(nodes@).subrange(0, i as int)),
            decreases nodes@.len() - i,
        {
            let ghost before = vdevs_of(out@);
            proof {
                let next = lists_of(nodes@).subrange(0, i + 1);
                assert(next.drop_last() =~= lists_of(nodes@).subrange(0, i as int));
                assert(next.last() == nodes@[i as int]@);
            }
            match Vdev::new(self.pool.clone(), &nodes[i]) {
                Ok(v) => {
                    out.push(v);
                    proof {
                        assert(vdevs_of(out@) =~= before.push(v@));
                    }
                },
                Err(_) => {},
            }
            i += 1;
        }
        proof {
            assert(lists_of(nodes@).subrange(0, nodes@.len() as int) =~= lists_of(nodes@));
        }
        Ok(out)
    }

    /// The statistics of the device, as the statistics `stats` of its pool
    /// show them.
    pub fn stats(&self, stats: &PairList) -> (r: Result<VdevStats, LookupError>)
        ensures
            r == spec_vdev_stats(self@.guid, stats@),
    {
        let found = match get_vdev(stats, self.guid) {
            Ok(f) => f,
            Err(e) => {
                return Err(e);
            },
        };
        let words = match found {
            Some(vd) => vd.get_u64_slice("vdev_stats".as_bytes()),
            None => None,
        };
        match words {
            Some(s) => Ok(VdevStats::from(s)),
            None => Ok(VdevStats::default()),
        }
    }
}

/// Whether the dataset named `ds` belongs to the pool named `pool`: its name
/// is the pool's, or starts with the pool's and a separator.
pub open spec fn in_pool(ds: Seq<u8>, pool: Seq<u8>) -> bool {
    pool.is_prefix_of(ds) && (ds.len() == pool.len() || ds[pool.len() as int] == SEPARATOR)
}

/// The pool's own name belongs to it, and so does every name that goes on
/// from it with a separator; a name that goes on from it with another byte
/// does not.
pub proof fn lemma_in_pool_boundary(pool: Seq<u8>, next: u8, rest: Seq<u8>)
    ensures
        in_pool(pool, pool),
        in_pool(pool + seq![next] + rest, pool) <==> next == SEPARATOR,
{
    let ds = pool + seq![next] + rest;
    assert(pool.subrange(0, pool.len() as int) =~= pool);
    assert(ds.subrange(0, pool.len() as int) =~= pool);
    assert(ds[pool.len() as int] == next);
}

/// The names among `names` of the datasets of the pool named `pool`, in
/// order.
pub open spec fn spec_pool_datasets(names: Seq<Seq<u8>>, pool: Seq<u8>) -> Seq<Seq<u8>> {
    names.filter(|ds: Seq<u8>| in_pool(ds, pool))
}

/// Tells whether the dataset named `ds` belongs to the pool named `pool`.
pub fn is_in_pool(ds: &[u8], pool: &[u8]) -> (r: bool)
    ensures
        r == in_pool(ds@, pool@),
{
    if ds.len() < pool.len() {
        return false;
    }
    if !bytes_eq(vstd::slice::slice_subrange(ds, 0, pool.len()), pool) {
        return false;
    }
    ds.len() == pool.len() || ds[pool.len()] == SEPARATOR
}

/// What the names of a vector stand for.
pub open spec fn names_of(v: Seq<AutoString>) -> Seq<Seq<u8>> {
    Seq::new(v.len(), |i: int| v[i]@)
}

/// A pool.
#[derive(Debug)]
pub struct Pool {
    name: AutoString,
}

impl View for Pool {
    type V = Seq<u8>;

    /// The pool's name.
    closed spec fn view(&self) -> Seq<u8> {
        self.name@
    }
}

/// A dataset.
#[derive(Debug)]
pub struct Dataset {
    name: AutoString,
}

impl View for Dataset {
    type V = Seq<u8>;

    /// The dataset's name.
    closed spec fn view(&self) -> Seq<u8> {
        self.name@
    }
}

/// What the datasets of a vector stand for.
pub open spec fn datasets_of(v: Seq<Dataset>) -> Seq<Seq<u8>> {
    Seq::new(v.len(), |i: int| v[i]@)
}

/// What the pools of a vector stand for.
pub open spec fn pools_of(v: Seq<Pool>) -> Seq<Seq<u8>> {
    Seq::new(v.len(), |i: int| v[i]@)
}

impl Pool {
    pub fn new(name: AutoString) -> (r: Pool)
        ensures
            r@ == name@,
    {
        Pool { name }
    }

    /// The pool's name as text, with U+FFFD in place of what is not UTF-8.
    pub fn name(&self) -> (r: String)
        ensures
            r@ == utf8_lossy(self@),
            valid_utf8(self@) ==> r@ == decode_utf8(self@),
    {
        self.name.as_str()
    }

    /// The pool's name as bytes.
    pub fn name_bytes(&self) -> (r: &AutoString)
        ensures
            r@ == self@,
    {
        &self.name
    }

    /// The root of the pool's device tree, as the pool's statistics `stats`
    /// show it.
    pub fn root_vdev(&self, stats: &PairList) -> (r: Result<Vdev, LookupError>)
        ensures
            match r {
                Ok(v) => (spec_get_list(stats@, key_vdev_tree()) matches Some(vl) && spec_vdev(
                    self@,
                    vl,
                ) == Ok::<VdevView, LookupError>(v@)),
                Err(e) => e == LookupError::NotFound && match spec_get_list(
                    stats@,
                    key_vdev_tree(),
                ) {
                    Some(vl) => spec_vdev(self@, vl) is Err,
                    None => true,
                },
            },
    {
        match stats.get_list("vdev_tree".as_bytes()) {
            Some(vl) => Vdev::new(self.name.clone(), vl),
            None => Err(LookupError::NotFound),
        }
    }

    /// The datasets of the pool among those named `names`, in order.
    pub fn datasets(&self, names: &[AutoString]) -> (r: Vec<Dataset>)
        ensures
            datasets_of(r@) == spec_pool_datasets(names_of(names@), self@),
    {
        let mut out: Vec<Dataset> = Vec::new();
        let ghost pred = |ds: Seq<u8>| in_pool(ds, self@);
        let mut i: usize = 0;
        proof {
            assert(datasets_of(out@) =~= Seq::empty());
            assert(names_of(names@).subrange(0, 0) =~= Seq::empty());
            reveal(Seq::filter);
            assert(Seq::<Seq<u8>>::empty().filter(pred) =~= Seq::empty());
        }
        while i < names.len()
            invariant
                i <= names@.len(),
                pred == (|ds: Seq<u8>| in_pool(ds, self@)),
                datasets_of(out@) == names_of(names@).subrange(0, i as int).filter(pred),
            decreases names@.len() - i,
        {
            let ghost before = datasets_of(out@);
            proof {
                let seen = names_of(names@).subrange(0, i as int);
                assert(names_of(names@).subrange(0, i + 1) =~= seen.push(names@[i as int]@));
                seen.lemma_filter_push(names@[i as int]@, pred);
            }
            if is_in_pool(names[i].as_bytes(), self.name.as_bytes()) {
                out.push(Dataset::new(names[i].clone()));
                proof {
                    assert(datasets_of(out@) =~= before.push(names@[i as int]@));
                }
            }
            i += 1;
        }
        proof {
            assert(names_of(names@).subrange(0, names@.len() as int) =~= names_of(names@));
        }
        out
    }
}

impl Dataset {
    pub fn new(name: AutoString) -> (r: Dataset)
        ensures
            r@ == name@,
    {
        Dataset { name }
    }

    /// The dataset's name as text, with U+FFFD in place of what is not
    /// UTF-8.
    pub fn name(&self) -> (r: String)
        ensures
            r@ == utf8_lossy(self@),
            valid_utf8(self@) ==> r@ == decode_utf8(self@),
    {
        self.name.as_str()
    }

    /// The dataset's name as bytes.
    pub fn name_bytes(&self) -> (r: &AutoString)
        ensures
            r@ == self@,
    {
        &self.name
    }

    /// The container of the property `prop` in the dataset's statistics
    /// `stats`.
    pub fn get_prop<'a>(&self, stats: &'a PairList, prop: &str) -> (r: Option<&'a PairList>)
        ensures
            match r {
                Some(l) => spec_get_list(stats@, prop.spec_bytes()) == Some(l@),
                None => spec_get_list(stats@, prop.spec_bytes()) is None,
            },
    {
        stats.get_list(prop.as_bytes())
    }

    /// The number that is the value of the property `prop` in the dataset's
    /// statistics `stats`; `None` where there is no such property, or its
    /// value is no unsigned 64-bit number.
    pub fn get_prop_u64(&self, stats: &PairList, prop: &str) -> (r: Option<u64>)
        ensures
            r == spec_prop_u64(stats@, prop.spec_bytes()),
    {
        match self.get_prop(stats, prop) {
            Some(l) => l.get_u64("value".as_bytes()),
            None => None,
        }
    }

    /// The text that is the value of the property `prop` in the dataset's
    /// statistics `stats`; `None` where there is no such property, or its
    /// value is no string.
    pub fn get_prop_string(&self, stats: &PairList, prop: &str) -> (r: Option<String>)
        ensures
            match r {
                Some(s) => (spec_prop_string(stats@, prop.spec_bytes()) matches Some(b) && s@
                    == utf8_lossy(b) && (valid_utf8(b) ==> s@ == decode_utf8(b))),
                None => spec_prop_string(stats@, prop.spec_bytes()) is None,
            },
    {
        let bytes = match self.get_prop(stats, prop) {
            Some(l) => l.get_c_string("value".as_bytes()),
            None => None,
        };
        match bytes {
            Some(b) => Some(crate::util::from_utf8_lossy(b.as_slice())),
            None => None,
        }
    }
}

/// The number that is the value of the property `prop` in the statistics
/// `stats` of a dataset.
pub open spec fn spec_prop_u64(stats: Seq<Entry>, prop: Seq<u8>) -> Option<u64> {
    match spec_get_list(stats, prop) {
        Some(l) => spec_get_u64(l, key_value()),
        None => None,
    }
}

/// The string that is the value of the property `prop` in the statistics
/// `stats` of a dataset.
pub open spec fn spec_prop_string(stats: Seq<Entry>, prop: Seq<u8>) -> Option<Seq<u8>> {
    match spec_get_list(stats, prop) {
        Some(l) => spec_get_c_string(l, key_value()),
        None => None,
    }
}

/// The root of the domain model: it holds the configuration of every pool.
#[derive(Debug)]
pub struct Root {
    config: PairList,
}

impl View for Root {
    type V = Seq<Entry>;

    /// The configuration container.
    closed spec fn view(&self) -> Seq<Entry> {
        self.config@
    }
}

/// The C string at the start of each name of `entries`, in order.
pub open spec fn spec_pool_names(entries: Seq<Entry>) -> Seq<Seq<u8>> {
    Seq::new(
        entries.len(),
        |i: int| entries[i].name.subrange(0, crate::wire::c_strlen(entries[i].name)),
    )
}

impl Root {
    /// Makes the root from the container of pool configurations.
    pub fn new(config: PairList) -> (r: Root)
        ensures
            r@ == config@,
    {
        Root { config }
    }

    /// The container of pool configurations.
    pub fn config(&self) -> (r: &PairList)
        ensures
            r@ == self@,
    {
        &self.config
    }

    /// The pools: one for each entry of the configuration, named as the
    /// entry is.
    pub fn pools(&self) -> (r: Vec<Pool>)
        ensures
            pools_of(r@) == spec_pool_names(self@),
    {
        let pairs = self.config.pairs();
        let mut out: Vec<Pool> = Vec::new();
        let mut i: usize = 0;
        while i < pairs.len()
            invariant
                i <= pairs@.len(),
                crate::nvpair::entries_of(pairs@) == self@,
                out@.len() == i,
                forall|j: int| 0 <= j < i ==> out@[j]@ == spec_pool_names(self@)[j],
            decreases pairs@.len() - i,
        {
            out.push(Pool::new(AutoString::from(pairs[i].key())));
            i += 1;
        }
        proof {
            assert(pools_of(out@) =~= spec_pool_names(self@));
        }
        out
    }
}

/// What the walk over the datasets asks its caller to do next.
#[derive(Debug)]
pub enum WalkAction {
    /// Fetch the statistics of the object set of this name, to see that it
    /// is there.
    Stat(AutoString),
    /// Ask for the next child of the dataset of this name, with this cookie.
    Next(AutoString, u64),
    /// Nothing: the walk is over.
    Done,
}

/// What a `WalkAction` stands for.
pub enum ActionView {
    Stat(Seq<u8>),
    Next(Seq<u8>, u64),
    Done,
}

impl View for WalkAction {
    type V = ActionView;

    open spec fn view(&self) -> ActionView {
        match self {
            WalkAction::Stat(n) => ActionView::Stat(n@),
            WalkAction::Next(n, c) => ActionView::Next(n@, *c),
            WalkAction::Done => ActionView::Done,
        }
    }
}

/// How what the walk asked for ended. A failure other than the end of an
/// iteration is no reply: it ends the walk as an error of its caller.
#[derive(Debug)]
pub enum WalkReply {
    /// The statistics were fetched.
    Stat,
    /// The next child has this name, and the iteration goes on with this
    /// cookie.
    Item(AutoString, u64),
    /// There is no further child.
    End,
}

/// What a `WalkReply` stands for.
pub enum ReplyView {
    Stat,
    Item(Seq<u8>, u64),
    End,
}

impl View for WalkReply {
    type V = ReplyView;

    open spec fn view(&self) -> ReplyView {
        match self {
            WalkReply::Stat => ReplyView::Stat,
            WalkReply::Item(n, c) => ReplyView::Item(n@, *c),
            WalkReply::End => ReplyView::End,
        }
    }
}

/// The state of a walk over the datasets of some pools.
pub struct WalkView {
    /// The pools that are still to be walked, first to last.
    pub pools: Seq<Seq<u8>>,
    /// The iterations that are still to be continued, the next one last:
    /// each a dataset's name and the cookie to go on with.
    pub stack: Seq<(Seq<u8>, u64)>,
    /// The names found so far, in the order in which they were found.
    pub list: Seq<Seq<u8>>,
    /// What the caller was asked to do and has not replied to.
    pub pending: ActionView,
}

/// The state after the next thing to do was picked, and that thing: the
/// iteration on top of the stack, else the next pool, else nothing.
pub open spec fn spec_walk_next(w: WalkView) -> WalkView {
    if w.stack.len() > 0 {
        let (name, cookie) = w.stack.last();
        WalkView { stack: w.stack.drop_last(), pending: ActionView::Next(name, cookie), ..w }
    } else if w.pools.len() > 0 {
        WalkView { pools: w.pools.drop_first(), pending: ActionView::Stat(w.pools.first()), ..w }
    } else {
        WalkView { pending: ActionView::Done, ..w }
    }
}

/// The state at the start of a walk over `pools`.
pub open spec fn spec_walk_start(pools: Seq<Seq<u8>>) -> WalkView {
    spec_walk_next(
        WalkView {
            pools,
            stack: Seq::empty(),
            list: Seq::empty(),
            pending: ActionView::Done,
        },
    )
}

/// The state after `reply` to what was pending.
///
/// A pool whose statistics were fetched is a dataset itself, and its
/// children are iterated from cookie zero. A child that was found is noted;
/// the iteration that found it goes on later with the new cookie, after the
/// child's own children were iterated from cookie zero. The end of an
/// iteration leaves the rest to do. A reply that does not answer what was
/// pending changes nothing.
pub open spec fn spec_walk_advance(w: WalkView, reply: ReplyView) -> WalkView {
    match (w.pending, reply) {
        (ActionView::Stat(pool), ReplyView::Stat) => spec_walk_next(
            WalkView { list: w.list.push(pool), stack: w.stack.push((pool, 0u64)), ..w },
        ),
        (ActionView::Next(name, _), ReplyView::Item(child, cookie)) => spec_walk_next(
            WalkView {
                list: w.list.push(child),
                stack: w.stack.push((name, cookie)).push((child, 0u64)),
                ..w
            },
        ),
        (ActionView::Next(_, _), ReplyView::End) => spec_walk_next(w),
        _ => w,
    }
}

/// A walk over the datasets of some pools: it tells its caller what to ask
/// the kernel, and takes what the kernel replied.
#[derive(Debug)]
pub struct DatasetWalk {
    pools: Vec<AutoString>,
    first_pool: usize,
    stack: Vec<(AutoString, u64)>,
    list: Vec<AutoString>,
    pending: WalkAction,
}

/// What a stack of iterations stands for.
pub open spec fn stack_of(v: Seq<(AutoString, u64)>) -> Seq<(Seq<u8>, u64)> {
    Seq::new(v.len(), |i: int| (v[i].0@, v[i].1))
}

impl View for DatasetWalk {
    type V = WalkView;

    closed spec fn view(&self) -> WalkView {
        WalkView {
            pools: if self.first_pool <= self.pools@.len() {
                names_of(self.pools@).subrange(self.first_pool as int, self.pools@.len() as int)
            } else {
                Seq::empty()
            },
            stack: stack_of(self.stack@),
            list: names_of(self.list@),
            pending: self.pending@,
        }
    }
}

impl DatasetWalk {
    /// Starts a walk over the datasets of `pools`.
    pub fn new(pools: Vec<AutoString>) -> (r: DatasetWalk)
        ensures
            r@ == spec_walk_start(names_of(pools@)),
    {
        let mut w = DatasetWalk {
            pools,
            first_pool: 0,
            stack: Vec::new(),
            list: Vec::new(),
            pending: WalkAction::Done,
        };
        proof {
            assert(w@.pools =~= names_of(pools@));
            assert(w@.stack =~= Seq::empty());
            assert(w@.list =~= Seq::empty());
        }
        w.pick();
        w
    }

    /// Picks the next thing to do.
    fn pick(&mut self)
        ensures
            final(self)@ == spec_walk_next(old(self)@),
    {
        let ghost before = self@;
        if self.stack.len() > 0 {
            let top = self.stack.len() - 1;
            let name = self.stack[top].0.clone();
            let cookie = self.stack[top].1;
            self.stack.truncate(top);
            self.pending = WalkAction::Next(name, cookie);
            proof {
                assert(self@.stack =~= before.stack.drop_last());
            }
        } else if self.first_pool < self.pools.len() {
            let name = self.pools[self.first_pool].clone();
            self.first_pool = self.first_pool + 1;
            self.pending = WalkAction::Stat(name);
            proof {
                assert(self@.pools =~= before.pools.drop_first());
            }
        } else {
            self.pending = WalkAction::Done;
            proof {
                assert(before.pools.len() == 0);
            }
        }
    }

    /// What the caller is asked to do.
    pub fn action(&self) -> (r: WalkAction)
        ensures
            r@ == self@.pending,
    {
        match &self.pending {
            WalkAction::Stat(n) => WalkAction::Stat(n.clone()),
            WalkAction::Next(n, c) => WalkAction::Next(n.clone(), *c),
            WalkAction::Done => WalkAction::Done,
        }
    }

    /// Takes the reply to what was pending, and picks the next thing to do.
    pub fn advance(&mut self, reply: WalkReply)
        ensures
            final(self)@ == spec_walk_advance(old(self)@, reply@),
    {
        let ghost before = self@;
        match reply {
            WalkReply::Stat => {
                let pool = match &self.pending {
                    WalkAction::Stat(p) => p.clone(),
                    _ => {
                        return ;
                    },
                };
                self.list.push(pool.clone());
                self.stack.push((pool, 0));
                proof {
                    assert(self@.list =~= before.list.push(pool@));
                    assert(self@.stack =~= before.stack.push((pool@, 0u64)));
                }
                self.pick();
            },
            WalkReply::Item(child, cookie) => {
                let name = match &self.pending {
                    WalkAction::Next(n, _) => n.clone(),
                    _ => {
                        return ;
                    },
                };
                self.list.push(child.clone());
                self.stack.push((name, cookie));
                self.stack.push((child, 0));
                proof {
                    assert(self@.list =~= before.list.push(child@));
                    assert(self@.stack =~= before.stack.push((name@, cookie)).push(
                        (child@, 0u64),
                    ));
                }
                self.pick();
            },
            WalkReply::End => {
                match &self.pending {
                    WalkAction::Next(_, _) => {},
                    _ => {
                        return ;
                    },
                }
                self.pick();
            },
        }
    }

    /// Whether the walk is over.
    pub fn is_done(&self) -> (r: bool)
        ensures
            r == (self@.pending is Done),
    {
        match &self.pending {
            WalkAction::Done => true,
            _ => false,
        }
    }

    /// The names found so far, in the order in which they were found.
    pub fn names(&self) -> (r: &[AutoString])
        ensures
            names_of(r@) == self@.list,
    {
        self.list.as_slice()
    }

    /// Ends the walk and gives the names that it found, in the order in which
    /// they were found.
    pub fn into_names(self) -> (r: Vec<AutoString>)
        ensures
            names_of(r@) == self@.list,
    {
        self.list
    }
}

/// A dataset whose first step ends the iteration has no children: the walk
/// over a pool whose statistics were fetched, and whose iteration ends at
/// once, finds the pool itself and nothing else, and is then over.
pub proof fn lemma_walk_exhausted_at_once(pool: Seq<u8>)
    ensures
        ({
            let asked = spec_walk_start(seq![pool]);
            let iterating = spec_walk_advance(asked, ReplyView::Stat);
            let over = spec_walk_advance(iterating, ReplyView::End);
            &&& asked.pending == ActionView::Stat(pool)
            &&& iterating.pending == ActionView::Next(pool, 0u64)
            &&& over.pending == ActionView::Done
            &&& over.list == seq![pool]
        }),
{
    let asked = spec_walk_start(seq![pool]);
    let iterating = spec_walk_advance(asked, ReplyView::Stat);
    assert(asked.pools =~= Seq::empty());
    assert(iterating.stack =~= Seq::empty());
    assert(iterating.list =~= seq![pool]);
}

/// The end of an iteration adds no name, whatever the state of the walk.
pub proof fn lemma_walk_end_adds_nothing(w: WalkView)
    ensures
        spec_walk_advance(w, ReplyView::End).list == w.list,
{
}

/// Whether the walk iterates only what it has found: every dataset whose
/// iteration waits or is pending is among the names found.
pub open spec fn walk_wf(w: WalkView) -> bool {
    &&& forall|i: int| 0 <= i < w.stack.len() ==> w.list.contains((#[trigger] w.stack[i]).0)
    &&& w.pending matches ActionView::Next(name, _) ==> w.list.contains(name)
}

/// A walk iterates only what it has found, from its start on and after
/// every reply; and a reply takes no name away and changes none: the names
/// found before it are the first of those found after it.
pub proof fn lemma_walk_wf(pools: Seq<Seq<u8>>, w: WalkView, reply: ReplyView)
    ensures
        walk_wf(spec_walk_start(pools)),
        walk_wf(w) ==> walk_wf(spec_walk_advance(w, reply)),
        w.list.is_prefix_of(spec_walk_advance(w, reply).list),
{
    let after = spec_walk_advance(w, reply);
    assert(w.list.is_prefix_of(after.list)) by {
        match (w.pending, reply) {
            (ActionView::Stat(pool), ReplyView::Stat) => {
                assert(w.list.push(pool).subrange(0, w.list.len() as int) =~= w.list);
            },
            (ActionView::Next(name, _), ReplyView::Item(child, cookie)) => {
                assert(w.list.push(child).subrange(0, w.list.len() as int) =~= w.list);
            },
            _ => {
                assert(w.list.subrange(0, w.list.len() as int) =~= w.list);
            },
        }
    }
    if walk_wf(w) {
        match (w.pending, reply) {
            (ActionView::Stat(pool), ReplyView::Stat) => {
                let mid = WalkView {
                    list: w.list.push(pool),
                    stack: w.stack.push((pool, 0u64)),
                    ..w
                };
                assert(mid.list[w.list.len() as int] == pool);
                assert forall|i: int| 0 <= i < mid.stack.len() implies mid.list.contains(
                    (#[trigger] mid.stack[i]).0,
                ) by {
                    if i < w.stack.len() {
                        let j = choose|j: int| 0 <= j < w.list.len() && w.list[j] == w.stack[i].0;
                        assert(mid.list[j] == mid.stack[i].0);
                    }
                }
                lemma_walk_next_wf(mid);
            },
            (ActionView::Next(name, _), ReplyView::Item(child, cookie)) => {
                let mid = WalkView {
                    list: w.list.push(child),
                    stack: w.stack.push((name, cookie)).push((child, 0u64)),
                    ..w
                };
                assert(mid.list[w.list.len() as int] == child);
                let k = choose|k: int| 0 <= k < w.list.len() && w.list[k] == name;
                assert(mid.list[k] == name);
                assert forall|i: int| 0 <= i < mid.stack.len() implies mid.list.contains(
                    (#[trigger] mid.stack[i]).0,
                ) by {
                    if i < w.stack.len() {
                        let j = choose|j: int| 0 <= j < w.list.len() && w.list[j] == w.stack[i].0;
                        assert(mid.list[j] == mid.stack[i].0);
                    }
                }
                lemma_walk_next_wf(mid);
            },
            (ActionView::Next(_, _), ReplyView::End) => {
                lemma_walk_next_wf(w);
            },
            _ => {},
        }
    }
    lemma_walk_next_wf(
        WalkView { pools, stack: Seq::empty(), list: Seq::empty(), pending: ActionView::Done },
    );
}

proof fn lemma_walk_next_wf(w: WalkView)
    requires
        forall|i: int| 0 <= i < w.stack.len() ==> w.list.contains((#[trigger] w.stack[i]).0),
    ensures
        walk_wf(spec_walk_next(w)),
{
    let after = spec_walk_next(w);
    if w.stack.len() > 0 {
        assert(w.list.contains(w.stack[w.stack.len() - 1].0));
        assert forall|i: int| 0 <= i < after.stack.len() implies after.list.contains(
            (#[trigger] after.stack[i]).0,
        ) by {
            assert(after.stack[i] == w.stack[i]);
        }
    }
}

/// What the kernel replies to `action`, where `kids` gives the names of the
/// children of each dataset, in the kernel's order, and a cookie counts the
/// children that an iteration has passed.
pub open spec fn spec_reply(kids: spec_fn(Seq<u8>) -> Seq<Seq<u8>>, action: ActionView) -> ReplyView {
    match action {
        ActionView::Stat(_) => ReplyView::Stat,
        ActionView::Next(name, cookie) => if cookie < kids(name).len() {
            ReplyView::Item(kids(name)[cookie as int], (cookie + 1) as u64)
        } else {
            ReplyView::End
        },
        ActionView::Done => ReplyView::End,
    }
}

/// The state of the walk `w` after `steps` of its requests were answered by
/// the kernel.
pub open spec fn spec_walk_run(
    w: WalkView,
    kids: spec_fn(Seq<u8>) -> Seq<Seq<u8>>,
    steps: nat,
) -> WalkView
    decreases steps,
{
    if steps == 0 {
        w
    } else {
        spec_walk_run(
            spec_walk_advance(w, spec_reply(kids, w.pending)),
            kids,
            (steps - 1) as nat,
        )
    }
}

/// Whether the datasets below `name`, and `name` itself, are at most
/// `depth` levels, and no dataset has more children than a cookie can
/// count.
pub open spec fn tree_fits(kids: spec_fn(Seq<u8>) -> Seq<Seq<u8>>, name: Seq<u8>, depth: nat) -> bool
    decreases depth,
{
    &&& depth > 0
    &&& kids(name).len() <= u64::MAX
    &&& forall|i: int|
        0 <= i < kids(name).len() ==> tree_fits(kids, #[trigger] kids(name)[i], (depth - 1) as nat)
}

/// The dataset `name` and those below it down to `depth` further levels,
/// each before its children and the children in the kernel's order.
pub open spec fn preorder(kids: spec_fn(Seq<u8>) -> Seq<Seq<u8>>, name: Seq<u8>, depth: nat) -> Seq<
    Seq<u8>,
>
    decreases depth, 0nat,
{
    if depth == 0 {
        seq![name]
    } else {
        seq![name] + preorder_all(kids, kids(name), (depth - 1) as nat)
    }
}

/// What `preorder` gives of each of `names`, one after the other.
pub open spec fn preorder_all(
    kids: spec_fn(Seq<u8>) -> Seq<Seq<u8>>,
    names: Seq<Seq<u8>>,
    depth: nat,
) -> Seq<Seq<u8>>
    decreases depth, names.len(),
{
    if names.len() == 0 {
        Seq::empty()
    } else {
        preorder(kids, names.first(), depth) + preorder_all(kids, names.drop_first(), depth)
    }
}

proof fn lemma_walk_run_add(
    w: WalkView,
    kids: spec_fn(Seq<u8>) -> Seq<Seq<u8>>,
    a: nat,
    b: nat,
)
    ensures
        spec_walk_run(w, kids, a + b) == spec_walk_run(spec_walk_run(w, kids, a), kids, b),
    decreases a,
{
    if a > 0 {
        lemma_walk_run_add(
            spec_walk_advance(w, spec_reply(kids, w.pending)),
            kids,
            (a - 1) as nat,
            b,
        );
    }
}

/// An iteration that is pending runs to its end: after some steps the walk
/// has found, behind what it had, the children that the iteration had not
/// passed, each with all that is below it and before the next, and goes on
/// with what waited.
proof fn lemma_walk_iterates(
    w: WalkView,
    kids: spec_fn(Seq<u8>) -> Seq<Seq<u8>>,
    name: Seq<u8>,
    cookie: u64,
    depth: nat,
) -> (steps: nat)
    requires
        w.pending == ActionView::Next(name, cookie),
        cookie <= kids(name).len(),
        tree_fits(kids, name, depth),
    ensures
        spec_walk_run(w, kids, steps) == spec_walk_next(
            WalkView {
                list: w.list + preorder_all(
                    kids,
                    kids(name).subrange(cookie as int, kids(name).len() as int),
                    (depth - 1) as nat,
                ),
                ..w
            },
        ),
    decreases depth, kids(name).len() - cookie,
{
    let all = kids(name);
    let left = all.subrange(cookie as int, all.len() as int);
    let below = (depth - 1) as nat;
    if cookie == all.len() {
        assert(left =~= Seq::empty());
        assert(w.list + preorder_all(kids, left, below) =~= w.list);
        assert(spec_walk_run(w, kids, 1) == spec_walk_run(spec_walk_next(w), kids, 0));
        1
    } else {
        let child = all[cookie as int];
        let next_cookie = (cookie + 1) as u64;
        let w1 = spec_walk_advance(w, spec_reply(kids, w.pending));
        let mid = WalkView {
            list: w.list.push(child),
            stack: w.stack.push((name, next_cookie)).push((child, 0u64)),
            ..w
        };
        assert(w1 == spec_walk_next(mid));
        assert(mid.stack.drop_last() =~= w.stack.push((name, next_cookie)));
        assert(w1.pending == ActionView::Next(child, 0u64));
        assert(tree_fits(kids, child, below));
        let k1 = lemma_walk_iterates(w1, kids, child, 0, below);
        let w2 = spec_walk_run(w1, kids, k1);
        assert(kids(child).subrange(0, kids(child).len() as int) =~= kids(child));
        assert(w1.stack.drop_last() =~= w.stack);
        assert(w2.pending == ActionView::Next(name, next_cookie));
        assert(w2.stack == w.stack);
        let k2 = lemma_walk_iterates(w2, kids, name, next_cookie, depth);
        let after = all.subrange(next_cookie as int, all.len() as int);
        assert(left.first() == child);
        assert(left.drop_first() =~= after);
        assert(w2.list + preorder_all(kids, after, below) =~= w.list + preorder_all(
            kids,
            left,
            below,
        )) by {
            assert(preorder(kids, child, below) =~= seq![child] + preorder_all(
                kids,
                kids(child),
                (below - 1) as nat,
            ));
            assert(w2.list =~= w.list + preorder(kids, child, below));
        }
        lemma_walk_run_add(w1, kids, k1, k2);
        assert(spec_walk_run(w, kids, 1 + k1 + k2) == spec_walk_run(w1, kids, k1 + k2));
        1 + k1 + k2
    }
}

proof fn lemma_walk_pools(
    w: WalkView,
    kids: spec_fn(Seq<u8>) -> Seq<Seq<u8>>,
    pool: Seq<u8>,
    depth: nat,
) -> (steps: nat)
    requires
        w.pending == ActionView::Stat(pool),
        w.stack.len() == 0,
        tree_fits(kids, pool, depth),
        forall|i: int| 0 <= i < w.pools.len() ==> tree_fits(kids, #[trigger] w.pools[i], depth),
    ensures
        spec_walk_run(w, kids, steps).pending is Done,
        spec_walk_run(w, kids, steps).list == w.list + preorder_all(
            kids,
            seq![pool] + w.pools,
            depth,
        ),
    decreases w.pools.len(),
{
    let w1 = spec_walk_advance(w, spec_reply(kids, w.pending));
    let mid = WalkView { list: w.list.push(pool), stack: w.stack.push((pool, 0u64)), ..w };
    assert(w1 == spec_walk_next(mid));
    assert(mid.stack.drop_last() =~= w.stack);
    let k1 = lemma_walk_iterates(w1, kids, pool, 0, depth);
    let w2 = spec_walk_run(w1, kids, k1);
    assert(kids(pool).subrange(0, kids(pool).len() as int) =~= kids(pool));
    assert(w2.list =~= w.list + preorder(kids, pool, depth));
    let names = seq![pool] + w.pools;
    assert(names.first() == pool);
    assert(names.drop_first() =~= w.pools);
    lemma_walk_run_add(w1, kids, k1, 0);
    if w.pools.len() == 0 {
        assert(preorder_all(kids, w.pools, depth) =~= Seq::empty());
        assert(w2.list + Seq::<Seq<u8>>::empty() =~= w2.list);
        assert(spec_walk_run(w, kids, 1 + k1) == spec_walk_run(w1, kids, k1));
        1 + k1
    } else {
        assert(w2.pending == ActionView::Stat(w.pools.first()));
        assert forall|i: int| 0 <= i < w2.pools.len() implies tree_fits(
            kids,
            #[trigger] w2.pools[i],
            depth,
        ) by {
            assert(w2.pools[i] == w.pools[i + 1]);
        }
        let k2 = lemma_walk_pools(w2, kids, w.pools.first(), depth);
        assert(seq![w.pools.first()] + w2.pools =~= w.pools);
        assert(w2.list + preorder_all(kids, w.pools, depth) =~= w.list + preorder_all(
            kids,
            names,
            depth,
        ));
        lemma_walk_run_add(w1, kids, k1, k2);
        assert(spec_walk_run(w, kids, 1 + k1 + k2) == spec_walk_run(w1, kids, k1 + k2));
        1 + k1 + k2
    }
}

/// The walk is a pre-order walk of the trees of datasets: where the kernel
/// answers by the children `kids` of each dataset, and the tree of each of
/// `pools` is at most `depth` levels, the walk is over after the number of
/// steps that is given back, and has then found each pool's datasets, a
/// dataset before its children, the children in the kernel's order, and one
/// pool's after another's.
pub proof fn lemma_walk_is_preorder(
    pools: Seq<Seq<u8>>,
    kids: spec_fn(Seq<u8>) -> Seq<Seq<u8>>,
    depth: nat,
) -> (steps: nat)
    requires
        forall|i: int| 0 <= i < pools.len() ==> tree_fits(kids, #[trigger] pools[i], depth),
    ensures
        spec_walk_run(spec_walk_start(pools), kids, steps).pending is Done,
        spec_walk_run(spec_walk_start(pools), kids, steps).list == preorder_all(
            kids,
            pools,
            depth,
        ),
{
    let w = spec_walk_start(pools);
    if pools.len() == 0 {
        0
    } else {
        assert forall|i: int| 0 <= i < w.pools.len() implies tree_fits(
            kids,
            #[trigger] w.pools[i],
            depth,
        ) by {
            assert(w.pools[i] == pools[i + 1]);
        }
        let k = lemma_walk_pools(w, kids, pools.first(), depth);
        assert(seq![pools.first()] + w.pools =~= pools);
        assert(Seq::<Seq<u8>>::empty() + preorder_all(kids, pools, depth) =~= preorder_all(
            kids,
            pools,
            depth,
        ));
        k
    }
}

} // verus!
