//! Endpoints and the node, and how a path with wildcards expands over
//! them.

use vstd::prelude::*;
use crate::data_model::objects::{attrs_sorted, Attribute, ClusterType};
use crate::error::Error;
use crate::interaction_model::messages::GenericPath;

verus! {

/// An endpoint: its clusters, in ascending order of their identifiers.
pub struct Endpoint<C: ClusterType> {
    pub clusters: Vec<C>,
}

/// The node: its endpoints; the identifier of an endpoint is its place.
/// The clusters of a node are of one type, which may be an enumeration of
/// the kinds of cluster that the node has.
pub struct Node<C: ClusterType> {
    pub endpoints: Vec<Endpoint<C>>,
}

/// The most endpoints that a node can have: their identifiers have sixteen
/// bits.
pub const MAX_ENDPOINTS: usize = 0x1_0000;

/// The identifiers of a run of clusters.
pub open spec fn ids_of<C: ClusterType>(clusters: Seq<C>) -> Seq<u32> {
    Seq::new(clusters.len(), |i: int| clusters[i].base_model().id)
}

/// The first place at which `id` stands.
pub open spec fn find_id(ids: Seq<u32>, id: u32) -> Option<int>
    decreases ids.len(),
{
    if ids.len() == 0 {
        None
    } else {
        match find_id(ids.drop_last(), id) {
            Some(i) => Some(i),
            None => if ids.last() == id {
                Some(ids.len() - 1)
            } else {
                None
            },
        }
    }
}

/// `find_id` finds a place in range that holds `id`, or `id` stands
/// nowhere.
pub proof fn lemma_find_id(ids: Seq<u32>, id: u32)
    ensures
        match find_id(ids, id) {
            Some(i) => 0 <= i < ids.len() && ids[i] == id,
            None => !ids.contains(id),
        },
    decreases ids.len(),
{
    if ids.len() > 0 {
        lemma_find_id(ids.drop_last(), id);
        match find_id(ids.drop_last(), id) {
            Some(i) => {
                assert(ids.drop_last()[i] == ids[i]);
            },
            None => {
                if ids.last() != id {
                    assert forall|j: int| 0 <= j < ids.len() implies ids[j] != id by {
                        if j < ids.len() - 1 {
                            assert(ids.drop_last()[j] == ids[j]);
                            assert(ids.drop_last().contains(ids[j]));
                        }
                    }
                }
            },
        }
    }
}

/// What is found in a run is found at the same place in every longer run.
pub proof fn lemma_find_id_prefix(ids: Seq<u32>, id: u32, n: int)
    requires
        0 <= n <= ids.len(),
        find_id(ids.subrange(0, n), id) is Some,
    ensures
        find_id(ids, id) == find_id(ids.subrange(0, n), id),
    decreases ids.len() - n,
{
    if n < ids.len() {
        assert(ids.subrange(0, n + 1).drop_last() =~= ids.subrange(0, n));
        lemma_find_id_prefix(ids, id, n + 1);
    } else {
        assert(ids.subrange(0, n) =~= ids);
    }
}

/// Whether each number is less than the next.
pub open spec fn strictly_ascending(s: Seq<u32>) -> bool {
    forall|i: int, j: int| 0 <= i < j < s.len() ==> s[i] < s[j]
}

/// Whether the attributes of every cluster stand in ascending order of
/// their identifiers.
pub open spec fn all_attrs_sorted<C: ClusterType>(clusters: Seq<C>) -> bool {
    forall|i: int|
        0 <= i < clusters.len() ==> attrs_sorted((#[trigger] clusters[i]).base_model().attributes)
}

/// How many of the numbers are less than `v`: in an ascending run, the
/// place at which `v` belongs.
pub open spec fn rank(s: Seq<u32>, v: u32) -> int
    decreases s.len(),
{
    if s.len() == 0 {
        0
    } else {
        rank(s.drop_last(), v) + (if s.last() < v {
            1int
        } else {
            0int
        })
    }
}

/// In an ascending run whose first `k` numbers are less than `v` and whose
/// others are not, `v` belongs at place `k`.
pub proof fn lemma_rank(s: Seq<u32>, v: u32, k: int)
    requires
        0 <= k <= s.len(),
        forall|j: int| 0 <= j < k ==> s[j] < v,
        forall|j: int| k <= j < s.len() ==> s[j] >= v,
    ensures
        rank(s, v) == k,
    decreases s.len(),
{
    if s.len() > 0 {
        let front = s.drop_last();
        if k == s.len() {
            lemma_rank(front, v, k - 1);
        } else {
            lemma_rank(front, v, k);
        }
    }
}

/// An ascending run stays ascending when a number is put in between the
/// numbers less than it and the numbers greater than it.
pub proof fn lemma_insert_ascending(s: Seq<u32>, v: u32, k: int)
    requires
        strictly_ascending(s),
        0 <= k <= s.len(),
        forall|j: int| 0 <= j < k ==> s[j] < v,
        forall|j: int| k <= j < s.len() ==> s[j] > v,
    ensures
        strictly_ascending(s.insert(k, v)),
{
    s.insert_ensures(k, v);
    let t = s.insert(k, v);
    assert forall|i: int, j: int| 0 <= i < j < t.len() implies t[i] < t[j] by {
        if i > k {
            assert(t[i] == s[i - 1]);
        }
        if j > k {
            assert(t[j] == s[j - 1]);
        }
    }
}

impl<C: ClusterType> Endpoint<C> {
    /// The identifier of the cluster at place `i`.
    pub open spec fn cluster_id(&self, i: int) -> u32 {
        self.clusters@[i].base_model().id
    }

    /// The clusters stand in ascending order of their identifiers, and so
    /// do the attributes of each.
    pub open spec fn wf(&self) -> bool {
        &&& strictly_ascending(ids_of(self.clusters@))
        &&& all_attrs_sorted(self.clusters@)
    }

    /// Whether the clusters and the attributes of each stand in order.
    pub fn is_wf(&self) -> (b: bool)
        ensures
            b == self.wf(),
    {
        let mut i: usize = 0;
        while i < self.clusters.len()
            invariant
                i <= self.clusters.len(),
                forall|a: int, b: int|
                    0 <= a < b < i ==> ids_of(self.clusters@)[a] < ids_of(self.clusters@)[b],
                forall|a: int|
                    0 <= a < i ==> attrs_sorted(
                        (#[trigger] self.clusters@[a]).base_model().attributes,
                    ),
            decreases self.clusters.len() - i,
        {
            let base = self.clusters[i].base();
            if !base.is_wf() {
                return false;
            }
            if i > 0 && self.clusters[i - 1].base().id >= base.id {
                assert(ids_of(self.clusters@)[i - 1] >= ids_of(self.clusters@)[i as int]);
                return false;
            }
            i = i + 1;
        }
        true
    }

    /// An endpoint without clusters.
    pub fn new() -> (ep: Endpoint<C>)
        ensures
            ep.clusters@.len() == 0,
            ep.wf(),
    {
        Endpoint { clusters: Vec::new() }
    }

    /// The place of the cluster with the given identifier.
    pub fn find_cluster(&self, id: u32) -> (r: Option<usize>)
        ensures
            match r {
                Some(i) => i < self.clusters@.len() && self.cluster_id(i as int) == id && find_id(
                    ids_of(self.clusters@),
                    id,
                ) == Some(i as int),
                None => !ids_of(self.clusters@).contains(id) && find_id(
                    ids_of(self.clusters@),
                    id,
                ) is None,
            },
    {
        let ghost ids = ids_of(self.clusters@);
        let mut i: usize = 0;
        proof {
            lemma_find_id(ids, id);
            assert(ids.subrange(0, 0) =~= Seq::<u32>::empty());
        }
        while i < self.clusters.len()
            invariant
                i <= self.clusters.len(),
                ids == ids_of(self.clusters@),
                find_id(ids.subrange(0, i as int), id) is None,
            decreases self.clusters.len() - i,
        {
            let ghost next = ids.subrange(0, i + 1);
            proof {
                assert(next.drop_last() =~= ids.subrange(0, i as int));
                assert(next.last() == ids[i as int]);
            }
            if self.clusters[i].base().id == id {
                proof {
                    lemma_find_id_prefix(ids, id, i + 1);
                }
                return Some(i);
            }
            i = i + 1;
        }
        proof {
            assert(ids.subrange(0, i as int) =~= ids);
        }
        None
    }

    /// Adds a cluster at its place in the order of identifiers. Fails with
    /// `Invalid`, and changes nothing, where the endpoint has a cluster
    /// with that identifier.
    pub fn add_cluster(&mut self, cluster: C) -> (r: Result<(), Error>)
        requires
            old(self).wf(),
            attrs_sorted(cluster.base_model().attributes),
        ensures
            final(self).wf(),
            ids_of(old(self).clusters@).contains(cluster.base_model().id) ==> r == Err::<
                (),
                Error,
            >(Error::Invalid) && final(self).clusters@ == old(self).clusters@,
            !ids_of(old(self).clusters@).contains(cluster.base_model().id) ==> r is Ok && final(self).clusters@ == old(self).clusters@.insert(
                rank(ids_of(old(self).clusters@), cluster.base_model().id),
                cluster,
            ),
    {
        let id: u32 = cluster.base().id;
        let ghost ids = ids_of(self.clusters@);
        let mut k: usize = 0;
        while k < self.clusters.len() && self.clusters[k].base().id < id
            invariant
                k <= self.clusters.len(),
                self.clusters == old(self).clusters,
                ids == ids_of(self.clusters@),
                forall|j: int| 0 <= j < k ==> ids[j] < id,
            decreases self.clusters.len() - k,
        {
            k = k + 1;
        }
        if k < self.clusters.len() && self.clusters[k].base().id == id {
            assert(ids[k as int] == id);
            return Err(Error::Invalid);
        }
        proof {
            assert forall|j: int| k <= j < ids.len() implies ids[j] > id by {
                if j > k {
                    assert(ids[k as int] < ids[j]);
                }
            }
            lemma_rank(ids, id, k as int);
            lemma_insert_ascending(ids, id, k as int);
        }
        let ghost cl = cluster;
        self.clusters.insert(k, cluster);
        proof {
            let a = old(self).clusters@;
            let b = self.clusters@;
            a.insert_ensures(k as int, cl);
            assert(ids_of(b) =~= ids.insert(k as int, id)) by {
                ids.insert_ensures(k as int, id);
                assert forall|i: int| 0 <= i < b.len() implies ids_of(b)[i] == ids.insert(
                    k as int,
                    id,
                )[i] by {
                    if i < k {
                        assert(b[i] == a[i]);
                    } else if i > k {
                        assert(b[i] == a[i - 1]);
                        assert(ids.insert(k as int, id)[(i - 1) + 1] == ids[i - 1]);
                    }
                }
            }
            assert forall|i: int| 0 <= i < b.len() implies attrs_sorted(
                (#[trigger] b[i]).base_model().attributes,
            ) by {
                if i < k {
                    assert(b[i] == a[i]);
                } else if i > k {
                    assert(b[i] == a[i - 1]);
                }
            }
        }
        Ok(())
    }
}

impl<C: ClusterType> Node<C> {
    /// There are at most 65536 endpoints, and each is in order.
    pub open spec fn wf(&self) -> bool {
        &&& self.endpoints@.len() <= MAX_ENDPOINTS
        &&& forall|e: int| 0 <= e < self.endpoints@.len() ==> (#[trigger] self.endpoints@[e]).wf()
    }

    /// Whether the node has no more endpoints than it can name, each in
    /// order.
    pub fn is_wf(&self) -> (b: bool)
        ensures
            b == self.wf(),
    {
        if self.endpoints.len() > MAX_ENDPOINTS {
            return false;
        }
        let mut i: usize = 0;
        while i < self.endpoints.len()
            invariant
                i <= self.endpoints.len(),
                forall|e: int| 0 <= e < i ==> (#[trigger] self.endpoints@[e]).wf(),
            decreases self.endpoints.len() - i,
        {
            if !self.endpoints[i].is_wf() {
                return false;
            }
            i = i + 1;
        }
        true
    }

    /// A node without endpoints.
    pub fn new() -> (r: Result<Node<C>, Error>)
        ensures
            r is Ok,
            r->Ok_0.endpoints@.len() == 0,
            r->Ok_0.wf(),
    {
        Ok(Node { endpoints: Vec::new() })
    }

    /// Adds an endpoint without clusters and returns its identifier, the
    /// next one that is free. Fails with `NoSpace` where the node has 65536
    /// endpoints.
    pub fn add_endpoint(&mut self) -> (r: Result<u16, Error>)
        requires
            old(self).wf(),
        ensures
            final(self).wf(),
            old(self).endpoints@.len() < MAX_ENDPOINTS ==> r == Ok::<u16, Error>(
                old(self).endpoints@.len() as u16,
            ) && final(self).endpoints@.len() == old(self).endpoints@.len() + 1
                && final(self).endpoints@[old(self).endpoints@.len() as int].clusters@.len() == 0
                && forall|e: int|
                0 <= e < old(self).endpoints@.len() ==> final(self).endpoints@[e] == old(self).endpoints@[e],
            old(self).endpoints@.len() >= MAX_ENDPOINTS ==> r == Err::<u16, Error>(Error::NoSpace)
                && final(self).endpoints@ == old(self).endpoints@,
    {
        if self.endpoints.len() >= MAX_ENDPOINTS {
            return Err(Error::NoSpace);
        }
        let id: u16 = self.endpoints.len() as u16;
        self.endpoints.push(Endpoint::new());
        Ok(id)
    }

    /// The places of an endpoint and of one of its clusters, by their
    /// identifiers: `EndpointNotFound` where the node has no such endpoint,
    /// `ClusterNotFound` where the endpoint has no such cluster.
    pub fn get_cluster(&self, endpoint: u16, cluster: u32) -> (r: Result<(usize, usize), Error>)
        ensures
            endpoint >= self.endpoints@.len() ==> r == Err::<(usize, usize), Error>(
                Error::EndpointNotFound,
            ),
            endpoint < self.endpoints@.len() ==> match r {
                Ok((e, c)) => e == endpoint && c < self.endpoints@[e as int].clusters@.len()
                    && self.endpoints@[e as int].cluster_id(c as int) == cluster && find_id(
                    ids_of(self.endpoints@[endpoint as int].clusters@),
                    cluster,
                ) == Some(c as int),
                Err(x) => x == Error::ClusterNotFound && find_id(
                    ids_of(self.endpoints@[endpoint as int].clusters@),
                    cluster,
                ) is None,
            },
    {
        if endpoint as usize >= self.endpoints.len() {
            return Err(Error::EndpointNotFound);
        }
        match self.endpoints[endpoint as usize].find_cluster(cluster) {
            Some(c) => Ok((endpoint as usize, c)),
            None => Err(Error::ClusterNotFound),
        }
    }
}

/// One attribute that a path stands for: the places of its endpoint and
/// cluster, and its identifier.
pub struct AttrTarget {
    pub endpoint: usize,
    pub cluster: usize,
    pub attr: u16,
}

/// Whether the endpoint at place `e` is one that the path stands for.
pub open spec fn endpoint_matches(path: GenericPath, e: int) -> bool {
    path.endpoint matches Some(w) ==> w as int == e
}

/// Whether a cluster with the identifier `id` is one that the path stands
/// for.
pub open spec fn cluster_matches(path: GenericPath, id: u32) -> bool {
    path.cluster matches Some(w) ==> w == id
}

/// Whether an attribute is one that the path stands for in a read: its
/// identifier matches and it may be read.
pub open spec fn attr_matches(path: GenericPath, a: Attribute) -> bool {
    a.access.read && (path.leaf matches Some(w) ==> w == a.id as u32)
}

/// The attributes among the first `upto` of a cluster that the path stands
/// for in a read, in ascending order.
pub open spec fn cluster_attr_targets(
    attrs: Seq<Attribute>,
    e: int,
    c: int,
    path: GenericPath,
    upto: int,
) -> Seq<(int, int, u16)>
    decreases upto,
{
    if upto <= 0 {
        Seq::empty()
    } else {
        cluster_attr_targets(attrs, e, c, path, upto - 1) + (if attr_matches(
            path,
            attrs[upto - 1],
        ) {
            seq![(e, c, attrs[upto - 1].id)]
        } else {
            Seq::empty()
        })
    }
}

/// The attributes of the first `upto` clusters of an endpoint that the
/// path stands for in a read.
pub open spec fn ep_attr_targets<C: ClusterType>(ep: Endpoint<C>, e: int, path: GenericPath, upto: int) -> Seq<
    (int, int, u16),
>
    decreases upto,
{
    if upto <= 0 {
        Seq::empty()
    } else {
        ep_attr_targets(ep, e, path, upto - 1) + (if cluster_matches(
            path,
            ep.cluster_id(upto - 1),
        ) {
            cluster_attr_targets(
                ep.clusters@[upto - 1].base_model().attributes,
                e,
                upto - 1,
                path,
                ep.clusters@[upto - 1].base_model().attributes.len() as int,
            )
        } else {
            Seq::empty()
        })
    }
}

/// The attributes of the first `upto` endpoints that the path stands for
/// in a read.
pub open spec fn node_attr_targets<C: ClusterType>(node: Node<C>, path: GenericPath, upto: int) -> Seq<
    (int, int, u16),
>
    decreases upto,
{
    if upto <= 0 {
        Seq::empty()
    } else {
        node_attr_targets(node, path, upto - 1) + (if endpoint_matches(path, upto - 1) {
            ep_attr_targets(
                node.endpoints@[upto - 1],
                upto - 1,
                path,
                node.endpoints@[upto - 1].clusters@.len() as int,
            )
        } else {
            Seq::empty()
        })
    }
}

/// The attributes that a path stands for in a read: endpoints in ascending
/// order, the clusters of each in ascending order, the attributes of each
/// in ascending order.
pub open spec fn attr_targets<C: ClusterType>(node: Node<C>, path: GenericPath) -> Seq<(int, int, u16)> {
    node_attr_targets(node, path, node.endpoints@.len() as int)
}

/// The places and identifiers that a run of attribute targets names.
pub open spec fn attr_targets_view(s: Seq<AttrTarget>) -> Seq<(int, int, u16)> {
    Seq::new(s.len(), |i: int| (s[i].endpoint as int, s[i].cluster as int, s[i].attr))
}

impl<C: ClusterType> Node<C> {
    /// The attributes that a path stands for in a read, in ascending order
    /// of endpoints, of clusters and of attributes.
    pub fn expand_attributes(&self, path: &GenericPath) -> (out: Vec<AttrTarget>)
        ensures
            attr_targets_view(out@) == attr_targets(*self, *path),
            forall|i: int|
                0 <= i < out@.len() ==> (#[trigger] out@[i]).endpoint < self.endpoints@.len()
                    && out@[i].cluster < self.endpoints@[out@[i].endpoint as int].clusters@.len(),
    {
        let mut out: Vec<AttrTarget> = Vec::new();
        let mut e: usize = 0;
        proof {
            assert(attr_targets_view(out@) =~= node_attr_targets(*self, *path, 0));
        }
        while e < self.endpoints.len()
            invariant
                e <= self.endpoints.len(),
                attr_targets_view(out@) == node_attr_targets(*self, *path, e as int),
                forall|i: int|
                    0 <= i < out@.len() ==> (#[trigger] out@[i]).endpoint < self.endpoints@.len()
                        && out@[i].cluster
                        < self.endpoints@[out@[i].endpoint as int].clusters@.len(),
            decreases self.endpoints.len() - e,
        {
            let matches: bool = match path.endpoint {
                Some(w) => w as usize == e,
                None => true,
            };
            if matches {
                let ep = &self.endpoints[e];
                let mut c: usize = 0;
                let ghost base = attr_targets_view(out@);
                proof {
                    assert(base + ep_attr_targets(*ep, e as int, *path, 0) =~= base);
                }
                while c < ep.clusters.len()
                    invariant
                        c <= ep.clusters.len(),
                        e < self.endpoints.len(),
                        *ep == self.endpoints@[e as int],
                        attr_targets_view(out@) == base + ep_attr_targets(
                            *ep,
                            e as int,
                            *path,
                            c as int,
                        ),
                        forall|i: int|
                            0 <= i < out@.len() ==> (#[trigger] out@[i]).endpoint
                                < self.endpoints@.len() && out@[i].cluster
                                < self.endpoints@[out@[i].endpoint as int].clusters@.len(),
                    decreases ep.clusters.len() - c,
                {
                    let cluster = ep.clusters[c].base();
                    let hit: bool = match path.cluster {
                        Some(w) => w == cluster.id,
                        None => true,
                    };
                    let ghost mid = attr_targets_view(out@);
                    if hit {
                        let mut a: usize = 0;
                        let ghost attrs = cluster@.attributes;
                        proof {
                            assert(mid + cluster_attr_targets(attrs, e as int, c as int, *path, 0)
                                =~= mid);
                        }
                        while a < cluster.attributes.len()
                            invariant
                                a <= cluster.attributes.len(),
                                e < self.endpoints.len(),
                                c < ep.clusters.len(),
                                *ep == self.endpoints@[e as int],
                                attrs == cluster@.attributes,
                                attr_targets_view(out@) == mid + cluster_attr_targets(
                                    attrs,
                                    e as int,
                                    c as int,
                                    *path,
                                    a as int,
                                ),
                                forall|i: int|
                                    0 <= i < out@.len() ==> (#[trigger] out@[i]).endpoint
                                        < self.endpoints@.len() && out@[i].cluster
                                        < self.endpoints@[out@[i].endpoint as int].clusters@.len(),
                            decreases cluster.attributes.len() - a,
                        {
                            let attr: Attribute = cluster.attributes[a];
                            let wanted: bool = attr.access.read && match path.leaf {
                                Some(w) => w == attr.id as u32,
                                None => true,
                            };
                            let ghost before = attr_targets_view(out@);
                            if wanted {
                                out.push(AttrTarget { endpoint: e, cluster: c, attr: attr.id });
                                assert(attr_targets_view(out@) =~= before + seq![
                                    (e as int, c as int, attr.id),
                                ]);
                            }
                            a = a + 1;
                            assert(attr_targets_view(out@) =~= mid + cluster_attr_targets(
                                attrs,
                                e as int,
                                c as int,
                                *path,
                                a as int,
                            ));
                        }
                    }
                    c = c + 1;
                    assert(attr_targets_view(out@) =~= base + ep_attr_targets(
                        *ep,
                        e as int,
                        *path,
                        c as int,
                    ));
                }
            } else {
                assert(attr_targets_view(out@) + Seq::<(int, int, u16)>::empty()
                    =~= attr_targets_view(out@));
            }
            e = e + 1;
        }
        out
    }
}

} // verus!
