//! How requests reach the clusters: reads, writes and commands over paths
//! that may hold wildcards, and the reports and statuses that answer them.

use vstd::prelude::*;
use crate::data_model::node::{attr_targets, attr_targets_view, find_id, ids_of, Node};
use crate::data_model::objects::{
    emit_if_fits, AttrValue, ClusterType, CmdPath, CommandReq, Transaction,
};
use crate::error::Error;
use crate::interaction_model::messages::{
    attr_path_elem, attr_path_element, attr_status_elem, attr_status_element, attr_status_report,
    attr_status_report_element, cmd_status_response, cmd_status_response_element, AttrDataType,
    GenericPath,
};
use crate::interaction_model::requests::ReadReq;
use crate::interaction_model::status::{status_of, status_of_error, IMStatusCode};
use crate::tlv::model::{
    elem_bytes, header_bytes, Elem, TagType, END_OF_CONTAINER, TYPE_STRUCT,
};
use crate::tlv::parser::TLVElement;
use crate::tlv::writer::{uint_elem, TLVWriter};

verus! {

/// The data model of a node.
pub struct DataModel<C: ClusterType> {
    pub node: Node<C>,
}

/// What stands before the data in the report of an attribute: the headers
/// of an anonymous structure and of the structure under the context tag 1
/// in it, the data version under the context tag 0, and the path under the
/// context tag 1.
pub open spec fn report_preamble(data_ver: u32, path: GenericPath) -> Seq<u8> {
    header_bytes(TagType::Anonymous, TYPE_STRUCT) + header_bytes(TagType::Context(1), TYPE_STRUCT)
        + elem_bytes(uint_elem(TagType::Context(0), data_ver as u64)) + elem_bytes(
        attr_path_elem(TagType::Context(1), path),
    )
}

/// The report of an attribute: the preamble, the data, which its cluster
/// writes under the context tag 2, and the ends of the two structures.
pub open spec fn attr_report_bytes(data_ver: u32, path: GenericPath, data: Seq<u8>) -> Seq<u8> {
    report_preamble(data_ver, path) + data + seq![END_OF_CONTAINER, END_OF_CONTAINER]
}

/// What the attempt to report an attribute comes to: success where the
/// cluster has data to write and the whole report fits; a failure where
/// the space runs out; else the status that stands for the error of the
/// cluster.
pub open spec fn read_data_status<C: ClusterType>(
    c: C,
    attr_id: u16,
    path: GenericPath,
    before: Seq<u8>,
    cap: nat,
) -> Result<(), IMStatusCode> {
    let pre = report_preamble(c.base_model().data_ver, path);
    if before.len() + pre.len() > cap {
        Err(IMStatusCode::Failure)
    } else {
        match c.attr_encoding(TagType::Context(2), attr_id) {
            Err(e) => Err(status_of(e)),
            Ok(data) => if before.len() + pre.len() + data.len() + 2 <= cap {
                Ok(())
            } else {
                Err(IMStatusCode::Failure)
            },
        }
    }
}

/// The bytes after the attempt to report an attribute: with the report
/// where the attempt succeeds, as before where it does not.
pub open spec fn read_data_out<C: ClusterType>(
    c: C,
    attr_id: u16,
    path: GenericPath,
    before: Seq<u8>,
    cap: nat,
) -> Seq<u8> {
    if read_data_status(c, attr_id, path, before, cap) is Ok {
        before + attr_report_bytes(
            c.base_model().data_ver,
            path,
            c.attr_encoding(TagType::Context(2), attr_id)->Ok_0,
        )
    } else {
        before
    }
}

/// Writes the report of one attribute, or nothing: where anything fails,
/// what was written of the report is taken back.
pub fn handle_read_attr_data<C: ClusterType>(
    c: &C,
    tw: &mut TLVWriter,
    path: &GenericPath,
    attr_id: u16,
) -> (r: Result<(), IMStatusCode>)
    ensures
        final(tw).capacity() == old(tw).capacity(),
        r == read_data_status(*c, attr_id, *path, old(tw)@, old(tw).capacity()),
        final(tw)@ == read_data_out(*c, attr_id, *path, old(tw)@, old(tw).capacity()),
{
    let anchor: usize = tw.get_tail();
    let ghost before = tw@;
    let ghost cap = tw.capacity();
    let data_ver: u32 = c.base().get_dataver();
    let ghost part1 = header_bytes(TagType::Anonymous, TYPE_STRUCT);
    let ghost part2 = header_bytes(TagType::Context(1), TYPE_STRUCT);
    let ghost part3 = elem_bytes(uint_elem(TagType::Context(0), data_ver as u64));
    let ghost part4 = elem_bytes(attr_path_elem(TagType::Context(1), *path));
    let ghost pre = report_preamble(data_ver, *path);
    proof {
        assert(pre == part1 + part2 + part3 + part4);
        assert((part1 + part2).len() == part1.len() + part2.len());
        assert((part1 + part2 + part3).len() == (part1 + part2).len() + part3.len());
        assert(pre.len() == (part1 + part2 + part3).len() + part4.len());
        assert(before.subrange(0, before.len() as int) =~= before);
    }
    if tw.start_struct(TagType::Anonymous).is_err() {
        tw.rewind_to(anchor);
        return Err(IMStatusCode::Failure);
    }
    assert(tw@ == before + part1);
    if tw.start_struct(TagType::Context(1)).is_err() {
        assert((before + part1).subrange(0, before.len() as int) =~= before);
        tw.rewind_to(anchor);
        return Err(IMStatusCode::Failure);
    }
    assert(tw@ =~= before + (part1 + part2));
    if tw.u32(TagType::Context(0), data_ver).is_err() {
        assert((before + (part1 + part2)).subrange(0, before.len() as int) =~= before);
        tw.rewind_to(anchor);
        return Err(IMStatusCode::Failure);
    }
    assert(tw@ =~= before + (part1 + part2 + part3));
    let path_el = attr_path_element(TagType::Context(1), path);
    proof {
        crate::interaction_model::messages::lemma_path_elem_wf(TagType::Context(1), *path, 2);
    }
    if tw.element(&path_el).is_err() {
        assert((before + (part1 + part2 + part3)).subrange(0, before.len() as int) =~= before);
        tw.rewind_to(anchor);
        return Err(IMStatusCode::Failure);
    }
    assert(tw@ =~= before + pre);
    let ghost mid = tw@;
    match c.read_attribute(TagType::Context(2), tw, attr_id) {
        Err(e) => {
            proof {
                assert(tw@.subrange(0, before.len() as int) =~= mid.subrange(
                    0,
                    before.len() as int,
                ));
                assert(mid.subrange(0, before.len() as int) =~= before);
            }
            tw.rewind_to(anchor);
            return Err(status_of_error(e));
        },
        Ok(()) => {},
    }
    let ghost data = c.attr_encoding(TagType::Context(2), attr_id)->Ok_0;
    assert(tw@ =~= before + (pre + data));
    if tw.end_container().is_err() {
        assert((before + (pre + data)).subrange(0, before.len() as int) =~= before);
        tw.rewind_to(anchor);
        return Err(IMStatusCode::Failure);
    }
    assert(tw@ =~= before + (pre + data + seq![END_OF_CONTAINER]));
    if tw.end_container().is_err() {
        assert((before + (pre + data + seq![END_OF_CONTAINER])).subrange(0, before.len() as int)
            =~= before);
        tw.rewind_to(anchor);
        return Err(IMStatusCode::Failure);
    }
    assert(tw@ =~= before + attr_report_bytes(data_ver, *path, data));
    Ok(())
}

} // verus!

verus! {

/// The bytes after the report that stands for a status was added where it
/// fits.
pub open spec fn status_report_out(
    path: GenericPath,
    status: IMStatusCode,
    before: Seq<u8>,
    cap: nat,
) -> Seq<u8> {
    emit_if_fits(before, cap, elem_bytes(attr_status_report(path, status)))
}

/// The path without wildcards of an attribute of the node.
pub open spec fn target_path<C: ClusterType>(node: Node<C>, e: int, c: int, attr: u16)
    -> GenericPath {
    GenericPath {
        endpoint: Some(e as u16),
        cluster: Some(node.endpoints@[e].cluster_id(c)),
        leaf: Some(attr as u32),
    }
}

/// The bytes after the first `upto` of the attributes that a path with
/// wildcards stands for were reported, in their order. An attribute that
/// cannot be reported leaves no trace.
pub open spec fn read_targets_out<C: ClusterType>(
    node: Node<C>,
    targets: Seq<(int, int, u16)>,
    upto: int,
    before: Seq<u8>,
    cap: nat,
) -> Seq<u8>
    decreases upto,
{
    if upto <= 0 {
        before
    } else {
        let t = targets[upto - 1];
        read_data_out(
            node.endpoints@[t.0].clusters@[t.1],
            t.2,
            target_path(node, t.0, t.1, t.2),
            read_targets_out(node, targets, upto - 1, before, cap),
            cap,
        )
    }
}

/// The bytes after a read of one path. A path without wildcards gives the
/// report of its attribute, or the report of the status that says why
/// there is none: an endpoint, cluster or attribute that the node has not,
/// or the error of the cluster. A path with wildcards gives the reports of
/// the attributes it stands for, in ascending order, and no statuses.
pub open spec fn read_path_out<C: ClusterType>(
    node: Node<C>,
    path: GenericPath,
    before: Seq<u8>,
    cap: nat,
) -> Seq<u8> {
    if path.has_wildcard() {
        let targets = attr_targets(node, path);
        read_targets_out(node, targets, targets.len() as int, before, cap)
    } else {
        let e = path.endpoint->Some_0 as int;
        let leaf = path.leaf->Some_0;
        if e >= node.endpoints@.len() {
            status_report_out(path, IMStatusCode::UnsupportedEndpoint, before, cap)
        } else {
            match find_id(ids_of(node.endpoints@[e].clusters@), path.cluster->Some_0) {
                None => status_report_out(path, IMStatusCode::UnsupportedCluster, before, cap),
                Some(c) => if leaf > 0xffff {
                    status_report_out(path, IMStatusCode::UnsupportedAttribute, before, cap)
                } else {
                    let cl = node.endpoints@[e].clusters@[c];
                    match read_data_status(cl, leaf as u16, path, before, cap) {
                        Ok(_) => read_data_out(cl, leaf as u16, path, before, cap),
                        Err(s) => status_report_out(path, s, before, cap),
                    }
                },
            }
        }
    }
}

/// Adds the report that stands for a status, where it fits.
pub fn put_status_report(tw: &mut TLVWriter, path: &GenericPath, status: IMStatusCode)
    ensures
        final(tw).capacity() == old(tw).capacity(),
        final(tw)@ == status_report_out(*path, status, old(tw)@, old(tw).capacity()),
{
    let e = attr_status_report_element(path, status);
    proof {
        crate::interaction_model::messages::lemma_attr_status_report_wf(*path, status);
    }
    let _ = tw.element(&e);
}

impl<C: ClusterType> DataModel<C> {
    /// A data model over the given node.
    pub fn new(node: Node<C>) -> (r: Result<DataModel<C>, Error>)
        ensures
            r is Ok,
            r->Ok_0.node == node,
    {
        Ok(DataModel { node })
    }

    /// The value of an attribute, or the status that says which of
    /// endpoint, cluster and attribute the node has not.
    pub fn read_attribute_raw(&self, endpoint: u16, cluster: u32, attr: u16) -> (r: Result<
        AttrValue,
        IMStatusCode,
    >)
        ensures
            r == raw_value(self.node, endpoint, cluster, attr),
    {
        match self.node.get_cluster(endpoint, cluster) {
            Err(e) => Err(status_of_error(e)),
            Ok((e, c)) => self.node.endpoints[e].clusters[c].base().read_attribute_raw(attr),
        }
    }

    /// Answers the read of one path.
    pub fn handle_read_attr_path(node: &Node<C>, attr_path: &GenericPath, tw: &mut TLVWriter)
        requires
            node.wf(),
        ensures
            final(tw).capacity() == old(tw).capacity(),
            final(tw)@ == read_path_out(*node, *attr_path, old(tw)@, old(tw).capacity()),
    {
        match attr_path.not_wildcard() {
            Ok((e, c, a)) => {
                match node.get_cluster(e, c) {
                    Err(err) => {
                        put_status_report(tw, attr_path, status_of_error(err));
                    },
                    Ok((ei, ci)) => {
                        if a > 0xffff {
                            put_status_report(tw, attr_path, IMStatusCode::UnsupportedAttribute);
                        } else {
                            let cluster = &node.endpoints[ei].clusters[ci];
                            match handle_read_attr_data(cluster, tw, attr_path, a as u16) {
                                Ok(()) => {},
                                Err(s) => {
                                    put_status_report(tw, attr_path, s);
                                },
                            }
                        }
                    },
                }
            },
            Err(_) => {
                let targets = node.expand_attributes(attr_path);
                let ghost before = tw@;
                let ghost cap = tw.capacity();
                let ghost all = attr_targets(*node, *attr_path);
                let mut i: usize = 0;
                while i < targets.len()
                    invariant
                        i <= targets.len(),
                        all == attr_targets(*node, *attr_path),
                        attr_targets_view(targets@) == all,
                        forall|k: int|
                            0 <= k < targets@.len() ==> (#[trigger] targets@[k]).endpoint
                                < node.endpoints@.len() && targets@[k].cluster
                                < node.endpoints@[targets@[k].endpoint as int].clusters@.len(),
                        node.endpoints@.len() <= crate::data_model::node::MAX_ENDPOINTS,
                        tw.capacity() == cap,
                        tw@ == read_targets_out(*node, all, i as int, before, cap),
                    decreases targets.len() - i,
                {
                    let t = &targets[i];
                    assert(all[i as int] == (t.endpoint as int, t.cluster as int, t.attr));
                    let cluster = &node.endpoints[t.endpoint].clusters[t.cluster];
                    let path = GenericPath::new(
                        Some(t.endpoint as u16),
                        Some(cluster.base().id),
                        Some(t.attr as u32),
                    );
                    let _ = handle_read_attr_data(cluster, tw, &path, t.attr);
                    i = i + 1;
                }
            },
        }
    }
}

/// The value of an attribute, or the status that says which of endpoint,
/// cluster and attribute the node has not.
pub open spec fn raw_value<C: ClusterType>(node: Node<C>, endpoint: u16, cluster: u32, attr: u16)
    -> Result<AttrValue, IMStatusCode> {
    if endpoint >= node.endpoints@.len() {
        Err(IMStatusCode::UnsupportedEndpoint)
    } else {
        match find_id(ids_of(node.endpoints@[endpoint as int].clusters@), cluster) {
            None => Err(IMStatusCode::UnsupportedCluster),
            Some(c) => {
                let attrs = node.endpoints@[endpoint as int].clusters@[c].base_model().attributes;
                match crate::data_model::objects::attr_index(attrs, attr) {
                    Some(i) => Ok(attrs[i].value),
                    None => Err(IMStatusCode::UnsupportedAttribute),
                }
            },
        }
    }
}

} // verus!

verus! {

/// The status code that answers a write: success, or the status that
/// refused it.
pub open spec fn write_code(st: Result<(), IMStatusCode>) -> IMStatusCode {
    match st {
        Ok(_) => IMStatusCode::Sucess,
        Err(s) => s,
    }
}

/// The bytes after a write to one attribute was answered: with the status
/// of the attribute, where it fits; but with nothing where the write was
/// refused and refusals are passed over, as they are under a wildcard.
pub open spec fn write_data_out(
    st: Result<(), IMStatusCode>,
    path: GenericPath,
    skip_error: bool,
    before: Seq<u8>,
    cap: nat,
) -> Seq<u8> {
    if skip_error && st is Err {
        before
    } else {
        emit_if_fits(
            before,
            cap,
            elem_bytes(attr_status_elem(TagType::Anonymous, path, write_code(st))),
        )
    }
}

/// What a write does to the cluster it goes to: the cluster keeps its
/// identifier and the order of its attributes; where the write is accepted
/// its data version rises by exactly one; where it is refused its generic
/// part stays as it is.
pub open spec fn write_effect<C: ClusterType>(before: C, after: C, data: Elem, attr_id: u16)
    -> bool {
    &&& after.base_model().id == before.base_model().id
    &&& crate::data_model::objects::attrs_sorted(before.base_model().attributes)
        ==> crate::data_model::objects::attrs_sorted(after.base_model().attributes)
    &&& before.write_status(data, attr_id) is Ok ==> after.base_model().data_ver
        == before.base_model().data_ver + 1
    &&& before.write_status(data, attr_id) is Err ==> after.base_model() == before.base_model()
}

/// Adds the status of an attribute, where it fits.
pub fn put_attr_status(tw: &mut TLVWriter, path: &GenericPath, status: IMStatusCode)
    ensures
        final(tw).capacity() == old(tw).capacity(),
        final(tw)@ == emit_if_fits(
            old(tw)@,
            old(tw).capacity(),
            elem_bytes(attr_status_elem(TagType::Anonymous, *path, status)),
        ),
{
    let e = attr_status_element(TagType::Anonymous, path, status);
    proof {
        crate::interaction_model::messages::lemma_attr_status_report_wf(*path, status);
    }
    let _ = tw.element(&e);
}

/// How a write of the data to one attribute of a cluster ends. An element
/// is handed to the cluster, which writes it or refuses it; data that a
/// closure makes is not written, and counts as a failure. The status is
/// added to the response, unless it is an error and errors are passed
/// over.
pub open spec fn write_data_done<C: ClusterType>(
    before: C,
    after: C,
    data: AttrDataType,
    attr_id: u16,
    path: GenericPath,
    skip_error: bool,
    out_before: Seq<u8>,
    cap: nat,
    out_after: Seq<u8>,
) -> bool {
    match data {
        AttrDataType::Tlv(t) => {
            &&& write_effect(before, after, t@, attr_id)
            &&& out_after == write_data_out(
                before.write_status(t@, attr_id),
                path,
                skip_error,
                out_before,
                cap,
            )
        },
        AttrDataType::Closure => {
            &&& after == before
            &&& out_after == write_data_out(
                Err(IMStatusCode::Failure),
                path,
                skip_error,
                out_before,
                cap,
            )
        },
    }
}

/// Writes to one attribute of a cluster and answers with its status.
pub fn handle_write_attr_data<C: ClusterType>(
    c: &mut C,
    tw: &mut TLVWriter,
    path: &GenericPath,
    data: &AttrDataType<'_>,
    attr_id: u16,
    skip_error: bool,
)
    ensures
        final(tw).capacity() == old(tw).capacity(),
        write_data_done(
            *old(c),
            *final(c),
            *data,
            attr_id,
            *path,
            skip_error,
            old(tw)@,
            old(tw).capacity(),
            final(tw)@,
        ),
{
    let result = match data {
        AttrDataType::Closure => Err(IMStatusCode::Failure),
        AttrDataType::Tlv(t) => c.write_attribute(t, attr_id),
    };
    if skip_error && result.is_err() {
        return ;
    }
    let status_code: IMStatusCode = match result {
        Err(e) => e,
        Ok(()) => IMStatusCode::Sucess,
    };
    put_attr_status(tw, path, status_code);
}

/// Whether a write to `path` goes to the cluster at place `c` of the
/// endpoint at place `e`: the path names a cluster and an attribute, the
/// endpoint is named or stands under the wildcard, and the cluster has the
/// identifier named.
pub open spec fn write_touches<C: ClusterType>(node: Node<C>, path: GenericPath, e: int, c: int)
    -> bool {
    &&& path.cluster is Some
    &&& path.leaf is Some
    &&& path.leaf->Some_0 <= 0xffff
    &&& crate::data_model::node::endpoint_matches(path, e)
    &&& node.endpoints@[e].cluster_id(c) == path.cluster->Some_0
}

/// The bytes after the write was answered by the first `upto` clusters of
/// an endpoint that it goes to under a wildcard.
pub open spec fn write_ep_out<C: ClusterType>(
    node: Node<C>,
    e: int,
    path: GenericPath,
    data: Elem,
    upto: int,
    before: Seq<u8>,
    cap: nat,
) -> Seq<u8>
    decreases upto,
{
    if upto <= 0 {
        before
    } else {
        let prev = write_ep_out(node, e, path, data, upto - 1, before, cap);
        if write_touches(node, path, e, upto - 1) {
            write_data_out(
                node.endpoints@[e].clusters@[upto - 1].write_status(
                    data,
                    path.leaf->Some_0 as u16,
                ),
                GenericPath { endpoint: Some(e as u16), ..path },
                true,
                prev,
                cap,
            )
        } else {
            prev
        }
    }
}

/// The bytes after the write was answered by the clusters of the first
/// `upto` endpoints that it goes to under a wildcard.
pub open spec fn write_node_out<C: ClusterType>(
    node: Node<C>,
    path: GenericPath,
    data: Elem,
    upto: int,
    before: Seq<u8>,
    cap: nat,
) -> Seq<u8>
    decreases upto,
{
    if upto <= 0 {
        before
    } else {
        write_ep_out(
            node,
            upto - 1,
            path,
            data,
            node.endpoints@[upto - 1].clusters@.len() as int,
            write_node_out(node, path, data, upto - 1, before, cap),
            cap,
        )
    }
}

/// The bytes after a write to one path was answered. A path without
/// wildcards is answered with the status of its attribute: success, the
/// status that refused the write, or what the node has not. A path whose
/// cluster or attribute is a wildcard is answered with one status:
/// unsupported cluster, or unsupported attribute. Under a wildcard for the
/// endpoint every cluster that the write goes to answers in ascending
/// order, and refusals are passed over.
pub open spec fn write_path_out<C: ClusterType>(
    node: Node<C>,
    path: GenericPath,
    data: Elem,
    before: Seq<u8>,
    cap: nat,
) -> Seq<u8> {
    if !path.has_wildcard() {
        let e = path.endpoint->Some_0 as int;
        let leaf = path.leaf->Some_0;
        let status = |s: IMStatusCode|
            emit_if_fits(before, cap, elem_bytes(attr_status_elem(TagType::Anonymous, path, s)));
        if e >= node.endpoints@.len() {
            status(IMStatusCode::UnsupportedEndpoint)
        } else {
            match find_id(ids_of(node.endpoints@[e].clusters@), path.cluster->Some_0) {
                None => status(IMStatusCode::UnsupportedCluster),
                Some(c) => if leaf > 0xffff {
                    status(IMStatusCode::UnsupportedAttribute)
                } else {
                    write_data_out(
                        node.endpoints@[e].clusters@[c].write_status(data, leaf as u16),
                        path,
                        false,
                        before,
                        cap,
                    )
                },
            }
        }
    } else if path.cluster is None {
        emit_if_fits(
            before,
            cap,
            elem_bytes(
                attr_status_elem(TagType::Anonymous, path, IMStatusCode::UnsupportedCluster),
            ),
        )
    } else if path.leaf is None {
        emit_if_fits(
            before,
            cap,
            elem_bytes(
                attr_status_elem(TagType::Anonymous, path, IMStatusCode::UnsupportedAttribute),
            ),
        )
    } else if path.leaf->Some_0 > 0xffff {
        before
    } else {
        write_node_out(node, path, data, node.endpoints@.len() as int, before, cap)
    }
}

/// How a node stands after a write to `path`: it has the same endpoints
/// and clusters; each cluster that the write went to shows the effect of
/// the write; every other cluster is as it was.
pub open spec fn node_written<C: ClusterType>(
    before: Node<C>,
    after: Node<C>,
    path: GenericPath,
    data: Elem,
    upto_e: int,
    upto_c: int,
) -> bool {
    &&& after.endpoints@.len() == before.endpoints@.len()
    &&& forall|e: int|
        0 <= e < before.endpoints@.len() ==> (#[trigger] after.endpoints@[e]).clusters@.len()
            == before.endpoints@[e].clusters@.len()
    &&& forall|e: int, c: int|
        0 <= e < before.endpoints@.len() && 0 <= c < before.endpoints@[e].clusters@.len() ==> {
            let old_c = #[trigger] before.endpoints@[e].clusters@[c];
            let new_c = after.endpoints@[e].clusters@[c];
            if write_touches(before, path, e, c) && (e < upto_e || (e == upto_e && c < upto_c)) {
                write_effect(old_c, new_c, data, path.leaf->Some_0 as u16)
            } else {
                new_c == old_c
            }
        }
}

} // verus!

verus! {

/// In an ascending run no number stands at two places.
pub proof fn lemma_ascending_distinct(ids: Seq<u32>, i: int, j: int)
    requires
        crate::data_model::node::strictly_ascending(ids),
        0 <= i < ids.len(),
        0 <= j < ids.len(),
        ids[i] == ids[j],
    ensures
        i == j,
{
    if i < j {
        assert(ids[i] < ids[j]);
    }
    if j < i {
        assert(ids[j] < ids[i]);
    }
}

/// A node that was in order before a write is in order after it.
pub proof fn lemma_written_wf<C: ClusterType>(
    before: Node<C>,
    after: Node<C>,
    path: GenericPath,
    data: Elem,
    upto_e: int,
    upto_c: int,
)
    requires
        before.wf(),
        node_written(before, after, path, data, upto_e, upto_c),
    ensures
        after.wf(),
{
    assert forall|e: int| 0 <= e < after.endpoints@.len() implies (
    #[trigger] after.endpoints@[e]).wf() by {
        let a = before.endpoints@[e];
        let b = after.endpoints@[e];
        assert(a.wf());
        assert(b.clusters@.len() == a.clusters@.len());
        assert forall|c: int| 0 <= c < a.clusters@.len() implies ids_of(b.clusters@)[c] == ids_of(
            a.clusters@,
        )[c] && crate::data_model::objects::attrs_sorted(
            (#[trigger] b.clusters@[c]).base_model().attributes,
        ) by {
            let old_c = before.endpoints@[e].clusters@[c];
            assert(crate::data_model::objects::attrs_sorted(
                a.clusters@[c].base_model().attributes,
            ));
        }
        assert(ids_of(b.clusters@) =~= ids_of(a.clusters@));
    }
}

impl<C: ClusterType> DataModel<C> {
    /// Answers the write to one path, and writes where the path leads.
    pub fn handle_write_attr_path(
        node: &mut Node<C>,
        path: &GenericPath,
        data: &TLVElement,
        tw: &mut TLVWriter,
    )
        requires
            old(node).wf(),
        ensures
            final(node).wf(),
            final(tw).capacity() == old(tw).capacity(),
            final(tw)@ == write_path_out(*old(node), *path, data@, old(tw)@, old(tw).capacity()),
            node_written(
                *old(node),
                *final(node),
                *path,
                data@,
                old(node).endpoints@.len() as int,
                0,
            ),
    {
        let ghost node0 = *node;
        let ghost before = tw@;
        let ghost cap = tw.capacity();
        let ghost n = node0.endpoints@.len() as int;
        match path.not_wildcard() {
            Ok((e, c, a)) => {
                match node.get_cluster(e, c) {
                    Err(err) => {
                        put_attr_status(tw, path, status_of_error(err));
                        proof {
                            if (e as int) < n {
                                crate::data_model::node::lemma_find_id(
                                    ids_of(node0.endpoints@[e as int].clusters@),
                                    c,
                                );
                                assert forall|ci: int|
                                    0 <= ci < node0.endpoints@[e as int].clusters@.len()
                                    implies !write_touches(node0, *path, e as int, ci) by {
                                    assert(ids_of(node0.endpoints@[e as int].clusters@)[ci]
                                        == node0.endpoints@[e as int].cluster_id(ci));
                                }
                            }
                        }
                    },
                    Ok((ei, ci)) => {
                        if a > 0xffff {
                            put_attr_status(tw, path, IMStatusCode::UnsupportedAttribute);
                        } else {
                            handle_write_attr_data(
                                &mut node.endpoints[ei].clusters[ci],
                                tw,
                                path,
                                &AttrDataType::Tlv(data),
                                a as u16,
                                false,
                            );
                            proof {
                                let ids = ids_of(node0.endpoints@[ei as int].clusters@);
                                assert forall|cj: int|
                                    0 <= cj < node0.endpoints@[ei as int].clusters@.len()
                                        && write_touches(
                                        node0,
                                        *path,
                                        ei as int,
                                        cj,
                                    ) implies cj == ci by {
                                    assert(ids[cj] == ids[ci as int]);
                                    lemma_ascending_distinct(ids, cj, ci as int);
                                }
                            }
                        }
                    },
                }
            },
            Err(_) => {
                if path.cluster.is_none() {
                    put_attr_status(tw, path, IMStatusCode::UnsupportedCluster);
                } else if path.leaf.is_none() {
                    put_attr_status(tw, path, IMStatusCode::UnsupportedAttribute);
                } else {
                    let cid: u32 = path.cluster.unwrap();
                    let leaf: u32 = path.leaf.unwrap();
                    if leaf <= 0xffff {
                        let attr_id: u16 = leaf as u16;
                        let mut e: usize = 0;
                        while e < node.endpoints.len()
                            invariant
                                e <= node.endpoints.len(),
                                node0.wf(),
                                n == node0.endpoints@.len(),
                                path.endpoint is None,
                                path.cluster == Some(cid),
                                path.leaf == Some(leaf),
                                leaf <= 0xffff,
                                attr_id == leaf as u16,
                                tw.capacity() == cap,
                                node_written(node0, *node, *path, data@, e as int, 0),
                                tw@ == write_node_out(node0, *path, data@, e as int, before, cap),
                            decreases node.endpoints.len() - e,
                        {
                            let ghost prev = tw@;
                            let mut c: usize = 0;
                            let count: usize = node.endpoints[e].clusters.len();
                            while c < count
                                invariant
                                    c <= count,
                                    e < node.endpoints.len(),
                                    count == node0.endpoints@[e as int].clusters@.len(),
                                    node0.wf(),
                                    n == node0.endpoints@.len(),
                                    path.endpoint is None,
                                    path.cluster == Some(cid),
                                    path.leaf == Some(leaf),
                                    leaf <= 0xffff,
                                    attr_id == leaf as u16,
                                    tw.capacity() == cap,
                                    node_written(node0, *node, *path, data@, e as int, c as int),
                                    tw@ == write_ep_out(
                                        node0,
                                        e as int,
                                        *path,
                                        data@,
                                        c as int,
                                        prev,
                                        cap,
                                    ),
                                decreases count - c,
                            {
                                let ghost mid = *node;
                                assert(mid.endpoints@[e as int].clusters@[c as int]
                                    == node0.endpoints@[e as int].clusters@[c as int]);
                                if node.endpoints[e].clusters[c].base().id == cid {
                                    let target = GenericPath::new(
                                        Some(e as u16),
                                        Some(cid),
                                        Some(leaf),
                                    );
                                    handle_write_attr_data(
                                        &mut node.endpoints[e].clusters[c],
                                        tw,
                                        &target,
                                        &AttrDataType::Tlv(data),
                                        attr_id,
                                        true,
                                    );
                                }
                                c = c + 1;
                            }
                            e = e + 1;
                        }
                    }
                }
            },
        }
        proof {
            lemma_written_wf(node0, *node, *path, data@, n, 0);
        }
    }
}

} // verus!

verus! {

/// What a run of commands has come to so far: the response, and the state
/// of the transaction.
pub struct CmdState {
    pub out: Seq<u8>,
    pub trans: Transaction,
}

/// The state after one cluster handled a command: the response of the
/// cluster is added where it fits; where the cluster returns a status, the
/// response that stands for it is added after that, except that under a
/// wildcard an unsupported command leaves no trace.
pub open spec fn cmd_step<C: ClusterType>(
    cl: C,
    path: GenericPath,
    data: Elem,
    wildcard: bool,
    st: CmdState,
    cap: nat,
) -> CmdState {
    let eff = cl.command_effect(CmdPath { path }, data, st.trans);
    let out = emit_if_fits(st.out, cap, eff.response);
    CmdState {
        out: match eff.result {
            Ok(_) => out,
            Err(s) => if wildcard && s == IMStatusCode::UnsupportedCommand {
                out
            } else {
                emit_if_fits(out, cap, elem_bytes(cmd_status_response(path, s)))
            },
        },
        trans: eff.trans,
    }
}

/// Whether a command to `path` goes to the cluster at place `c` of the
/// endpoint at place `e`.
pub open spec fn cmd_touches<C: ClusterType>(node: Node<C>, path: GenericPath, e: int, c: int)
    -> bool {
    crate::data_model::node::endpoint_matches(path, e) && crate::data_model::node::cluster_matches(
        path,
        node.endpoints@[e].cluster_id(c),
    )
}

/// The path of a command as the cluster at place `c` of the endpoint at
/// place `e` sees it: with its own endpoint and cluster in place of
/// wildcards.
pub open spec fn cmd_target_path<C: ClusterType>(node: Node<C>, path: GenericPath, e: int, c: int)
    -> GenericPath {
    GenericPath {
        endpoint: Some(e as u16),
        cluster: Some(node.endpoints@[e].cluster_id(c)),
        leaf: path.leaf,
    }
}

/// The state after the first `upto` clusters of an endpoint handled the
/// command that goes to them.
pub open spec fn cmd_ep_state<C: ClusterType>(
    node: Node<C>,
    e: int,
    path: GenericPath,
    data: Elem,
    upto: int,
    st: CmdState,
    cap: nat,
) -> CmdState
    decreases upto,
{
    if upto <= 0 {
        st
    } else {
        let prev = cmd_ep_state(node, e, path, data, upto - 1, st, cap);
        if cmd_touches(node, path, e, upto - 1) {
            cmd_step(
                node.endpoints@[e].clusters@[upto - 1],
                cmd_target_path(node, path, e, upto - 1),
                data,
                true,
                prev,
                cap,
            )
        } else {
            prev
        }
    }
}

/// The state after the clusters of the first `upto` endpoints handled the
/// command that goes to them.
pub open spec fn cmd_node_state<C: ClusterType>(
    node: Node<C>,
    path: GenericPath,
    data: Elem,
    upto: int,
    st: CmdState,
    cap: nat,
) -> CmdState
    decreases upto,
{
    if upto <= 0 {
        st
    } else {
        cmd_ep_state(
            node,
            upto - 1,
            path,
            data,
            node.endpoints@[upto - 1].clusters@.len() as int,
            cmd_node_state(node, path, data, upto - 1, st, cap),
            cap,
        )
    }
}

/// The state after a command to one path was handled. A path without
/// wildcards goes to its cluster, or is answered with the status that says
/// that the node has no such endpoint or cluster. A path with wildcards
/// goes to every cluster that it stands for, endpoints in ascending order
/// and the clusters of each in ascending order.
pub open spec fn cmd_path_state<C: ClusterType>(
    node: Node<C>,
    path: GenericPath,
    data: Elem,
    st: CmdState,
    cap: nat,
) -> CmdState {
    if !path.has_wildcard() {
        let e = path.endpoint->Some_0 as int;
        let status = |s: IMStatusCode|
            CmdState {
                out: emit_if_fits(st.out, cap, elem_bytes(cmd_status_response(path, s))),
                trans: st.trans,
            };
        if e >= node.endpoints@.len() {
            status(IMStatusCode::UnsupportedEndpoint)
        } else {
            match find_id(ids_of(node.endpoints@[e].clusters@), path.cluster->Some_0) {
                None => status(IMStatusCode::UnsupportedCluster),
                Some(c) => cmd_step(node.endpoints@[e].clusters@[c], path, data, false, st, cap),
            }
        }
    } else {
        cmd_node_state(node, path, data, node.endpoints@.len() as int, st, cap)
    }
}

/// What the handling of a command may do to the cluster it goes to: the
/// cluster keeps its identifier and the order of its attributes.
pub open spec fn cmd_kept<C: ClusterType>(before: C, after: C) -> bool {
    &&& after.base_model().id == before.base_model().id
    &&& crate::data_model::objects::attrs_sorted(before.base_model().attributes)
        ==> crate::data_model::objects::attrs_sorted(after.base_model().attributes)
}

/// How a node stands after a command to `path`: it has the same endpoints
/// and clusters; every cluster that the command did not go to is as it
/// was.
pub open spec fn node_commanded<C: ClusterType>(
    before: Node<C>,
    after: Node<C>,
    path: GenericPath,
    upto_e: int,
    upto_c: int,
) -> bool {
    &&& after.endpoints@.len() == before.endpoints@.len()
    &&& forall|e: int|
        0 <= e < before.endpoints@.len() ==> (#[trigger] after.endpoints@[e]).clusters@.len()
            == before.endpoints@[e].clusters@.len()
    &&& forall|e: int, c: int|
        0 <= e < before.endpoints@.len() && 0 <= c < before.endpoints@[e].clusters@.len() ==> {
            let old_c = #[trigger] before.endpoints@[e].clusters@[c];
            let new_c = after.endpoints@[e].clusters@[c];
            if cmd_touches(before, path, e, c) && (e < upto_e || (e == upto_e && c < upto_c)) {
                cmd_kept(old_c, new_c)
            } else {
                new_c == old_c
            }
        }
}

/// A node that was in order before a command is in order after it.
pub proof fn lemma_commanded_wf<C: ClusterType>(
    before: Node<C>,
    after: Node<C>,
    path: GenericPath,
    upto_e: int,
    upto_c: int,
)
    requires
        before.wf(),
        node_commanded(before, after, path, upto_e, upto_c),
    ensures
        after.wf(),
{
    assert forall|e: int| 0 <= e < after.endpoints@.len() implies (
    #[trigger] after.endpoints@[e]).wf() by {
        let a = before.endpoints@[e];
        let b = after.endpoints@[e];
        assert(a.wf());
        assert(b.clusters@.len() == a.clusters@.len());
        assert forall|c: int| 0 <= c < a.clusters@.len() implies ids_of(b.clusters@)[c] == ids_of(
            a.clusters@,
        )[c] && crate::data_model::objects::attrs_sorted(
            (#[trigger] b.clusters@[c]).base_model().attributes,
        ) by {
            let old_c = before.endpoints@[e].clusters@[c];
            assert(crate::data_model::objects::attrs_sorted(
                a.clusters@[c].base_model().attributes,
            ));
        }
        assert(ids_of(b.clusters@) =~= ids_of(a.clusters@));
    }
}

/// Adds the response that stands for the status of a command, where it
/// fits.
pub fn put_cmd_status(resp: &mut TLVWriter, path: &GenericPath, status: IMStatusCode)
    ensures
        final(resp).capacity() == old(resp).capacity(),
        final(resp)@ == emit_if_fits(
            old(resp)@,
            old(resp).capacity(),
            elem_bytes(cmd_status_response(*path, status)),
        ),
{
    let e = cmd_status_response_element(path, status);
    proof {
        crate::interaction_model::messages::lemma_cmd_status_response_wf(*path, status);
    }
    let _ = resp.element(&e);
}

/// Hands a command to one cluster and answers with a status where the
/// cluster returns one.
pub fn handle_command_data<C: ClusterType>(
    c: &mut C,
    path: &GenericPath,
    data: &TLVElement,
    wildcard: bool,
    trans: &mut Transaction,
    resp: &mut TLVWriter,
)
    ensures
        final(resp).capacity() == old(resp).capacity(),
        cmd_kept(*old(c), *final(c)),
        (CmdState { out: final(resp)@, trans: *final(trans) }) == cmd_step(
            *old(c),
            *path,
            data@,
            wildcard,
            CmdState { out: old(resp)@, trans: *old(trans) },
            old(resp).capacity(),
        ),
{
    let req = CommandReq { cmd: CmdPath { path: *path }, data };
    match c.handle_command(&req, trans, resp) {
        Ok(()) => {},
        Err(e) => {
            if !(wildcard && e == IMStatusCode::UnsupportedCommand) {
                put_cmd_status(resp, path, e);
            }
        },
    }
}

impl<C: ClusterType> DataModel<C> {
    /// Handles the command of one path.
    pub fn handle_command_path(
        node: &mut Node<C>,
        cmd_req: &CommandReq,
        trans: &mut Transaction,
        resp: &mut TLVWriter,
    )
        requires
            old(node).wf(),
        ensures
            final(node).wf(),
            final(resp).capacity() == old(resp).capacity(),
            (CmdState { out: final(resp)@, trans: *final(trans) }) == cmd_path_state(
                *old(node),
                cmd_req.cmd.path,
                cmd_req.data@,
                CmdState { out: old(resp)@, trans: *old(trans) },
                old(resp).capacity(),
            ),
            node_commanded(
                *old(node),
                *final(node),
                cmd_req.cmd.path,
                old(node).endpoints@.len() as int,
                0,
            ),
    {
        let ghost node0 = *node;
        let ghost st0 = CmdState { out: resp@, trans: *trans };
        let ghost cap = resp.capacity();
        let ghost n = node0.endpoints@.len() as int;
        let path: GenericPath = cmd_req.cmd.path;
        let data: &TLVElement = cmd_req.data;
        match path.not_wildcard() {
            Ok((e, c, _cmd)) => {
                match node.get_cluster(e, c) {
                    Err(err) => {
                        put_cmd_status(resp, &path, status_of_error(err));
                        proof {
                            if (e as int) < n {
                                crate::data_model::node::lemma_find_id(
                                    ids_of(node0.endpoints@[e as int].clusters@),
                                    c,
                                );
                                assert forall|ci: int|
                                    0 <= ci < node0.endpoints@[e as int].clusters@.len()
                                    implies !cmd_touches(node0, path, e as int, ci) by {
                                    assert(ids_of(node0.endpoints@[e as int].clusters@)[ci]
                                        == node0.endpoints@[e as int].cluster_id(ci));
                                }
                            }
                        }
                    },
                    Ok((ei, ci)) => {
                        handle_command_data(
                            &mut node.endpoints[ei].clusters[ci],
                            &path,
                            data,
                            false,
                            trans,
                            resp,
                        );
                        proof {
                            let ids = ids_of(node0.endpoints@[ei as int].clusters@);
                            assert forall|cj: int|
                                0 <= cj < node0.endpoints@[ei as int].clusters@.len()
                                    && cmd_touches(
                                    node0,
                                    path,
                                    ei as int,
                                    cj,
                                ) implies cj == ci by {
                                assert(ids[cj] == ids[ci as int]);
                                lemma_ascending_distinct(ids, cj, ci as int);
                            }
                        }
                    },
                }
            },
            Err(_) => {
                let mut e: usize = 0;
                while e < node.endpoints.len()
                    invariant
                        e <= node.endpoints.len(),
                        node0.wf(),
                        n == node0.endpoints@.len(),
                        path == cmd_req.cmd.path,
                        data@ == cmd_req.data@,
                        path.has_wildcard(),
                        resp.capacity() == cap,
                        node_commanded(node0, *node, path, e as int, 0),
                        (CmdState { out: resp@, trans: *trans }) == cmd_node_state(
                            node0,
                            path,
                            data@,
                            e as int,
                            st0,
                            cap,
                        ),
                    decreases node.endpoints.len() - e,
                {
                    let ghost prev = CmdState { out: resp@, trans: *trans };
                    let ep_hit: bool = match path.endpoint {
                        Some(w) => w as usize == e,
                        None => true,
                    };
                    let mut c: usize = 0;
                    let count: usize = node.endpoints[e].clusters.len();
                    while c < count
                        invariant
                            c <= count,
                            e < node.endpoints.len(),
                            count == node0.endpoints@[e as int].clusters@.len(),
                            node0.wf(),
                            n == node0.endpoints@.len(),
                            path == cmd_req.cmd.path,
                            data@ == cmd_req.data@,
                            ep_hit == crate::data_model::node::endpoint_matches(path, e as int),
                            resp.capacity() == cap,
                            node_commanded(node0, *node, path, e as int, c as int),
                            (CmdState { out: resp@, trans: *trans }) == cmd_ep_state(
                                node0,
                                e as int,
                                path,
                                data@,
                                c as int,
                                prev,
                                cap,
                            ),
                        decreases count - c,
                    {
                        let ghost mid = *node;
                        assert(mid.endpoints@[e as int].clusters@[c as int]
                            == node0.endpoints@[e as int].clusters@[c as int]);
                        let cid: u32 = node.endpoints[e].clusters[c].base().id;
                        let hit: bool = ep_hit && match path.cluster {
                            Some(w) => w == cid,
                            None => true,
                        };
                        if hit {
                            let target = GenericPath::new(Some(e as u16), Some(cid), path.leaf);
                            handle_command_data(
                                &mut node.endpoints[e].clusters[c],
                                &target,
                                data,
                                true,
                                trans,
                                resp,
                            );
                        }
                        c = c + 1;
                    }
                    e = e + 1;
                }
            },
        }
        proof {
            lemma_commanded_wf(node0, *node, path, n, 0);
        }
    }
}

} // verus!

verus! {

/// The bytes after the first `upto` paths of a read request were answered,
/// each in its turn, in the order of the request.
pub open spec fn read_paths_out<C: ClusterType>(
    node: Node<C>,
    paths: Seq<GenericPath>,
    upto: int,
    before: Seq<u8>,
    cap: nat,
) -> Seq<u8>
    decreases upto,
{
    if upto <= 0 {
        before
    } else {
        read_path_out(node, paths[upto - 1], read_paths_out(node, paths, upto - 1, before, cap), cap)
    }
}

/// The answer to the first paths of a request does not depend on the paths
/// that follow them.
pub proof fn lemma_read_paths_prefix<C: ClusterType>(
    node: Node<C>,
    a: Seq<GenericPath>,
    b: Seq<GenericPath>,
    upto: int,
    before: Seq<u8>,
    cap: nat,
)
    requires
        0 <= upto <= a.len(),
    ensures
        read_paths_out(node, a + b, upto, before, cap) == read_paths_out(node, a, upto, before, cap),
    decreases upto,
{
    if upto > 0 {
        lemma_read_paths_prefix(node, a, b, upto - 1, before, cap);
        assert((a + b)[upto - 1] == a[upto - 1]);
    }
}

/// The response to a read keeps the order of the paths of the request: the
/// answer to a run of paths is the answer to its first part, followed by
/// the answer to the rest.
pub proof fn law_read_keeps_request_order<C: ClusterType>(
    node: Node<C>,
    a: Seq<GenericPath>,
    b: Seq<GenericPath>,
    upto: int,
    before: Seq<u8>,
    cap: nat,
)
    requires
        0 <= upto <= b.len(),
    ensures
        read_paths_out(node, a + b, a.len() + upto, before, cap) == read_paths_out(
            node,
            b,
            upto,
            read_paths_out(node, a, a.len() as int, before, cap),
            cap,
        ),
    decreases upto,
{
    if upto > 0 {
        law_read_keeps_request_order(node, a, b, upto - 1, before, cap);
        assert((a + b)[a.len() + upto - 1] == b[upto - 1]);
    } else {
        lemma_read_paths_prefix(node, a, b, a.len() as int, before, cap);
    }
}

/// What a writer has come to: whether it is still good, and its bytes.
pub struct WOut {
    pub r: Result<(), Error>,
    pub out: Seq<u8>,
}

/// A writer after `bytes` were to be added: a writer that has failed stays
/// as it is; bytes that fit are added; bytes that do not fit fail the
/// writer with `NoSpace` and are not added.
pub open spec fn w_put(s: WOut, cap: nat, bytes: Seq<u8>) -> WOut {
    if s.r is Err {
        s
    } else if s.out.len() + bytes.len() <= cap {
        WOut { r: Ok(()), out: s.out + bytes }
    } else {
        WOut { r: Err(Error::NoSpace), out: s.out }
    }
}

/// The writer after the reports of a read request were added: nothing
/// where the request has no paths; else an array under the context tag 1
/// that holds the answers to the paths in the order of the request.
pub open spec fn consume_read_out<C: ClusterType>(
    node: Node<C>,
    paths: Option<Seq<GenericPath>>,
    s: WOut,
    cap: nat,
) -> WOut {
    if s.r is Err {
        s
    } else {
        match paths {
            None => s,
            Some(p) => {
                let s1 = w_put(s, cap, header_bytes(TagType::Context(1), crate::tlv::model::TYPE_ARRAY));
                if s1.r is Err {
                    s1
                } else {
                    w_put(
                        WOut {
                            r: Ok(()),
                            out: read_paths_out(node, p, p.len() as int, s1.out, cap),
                        },
                        cap,
                        seq![END_OF_CONTAINER],
                    )
                }
            },
        }
    }
}

/// The models of an optional run of paths.
pub open spec fn opt_paths(v: Option<Vec<GenericPath>>) -> Option<Seq<GenericPath>> {
    match v {
        Some(p) => Some(p@),
        None => None,
    }
}

/// Whether `nodes` and `outs` are the nodes and responses that a run of
/// writes passes through: each write leads from one to the next.
pub open spec fn writes_trace<C: ClusterType>(
    nodes: Seq<Node<C>>,
    outs: Seq<Seq<u8>>,
    items: Seq<crate::interaction_model::requests::PathDataModel>,
    cap: nat,
) -> bool {
    &&& nodes.len() == items.len() + 1
    &&& outs.len() == items.len() + 1
    &&& forall|k: int|
        0 <= k < items.len() ==> write_step(
            nodes[k],
            nodes[k + 1],
            #[trigger] items[k],
            outs[k],
            outs[k + 1],
            cap,
        )
}

/// How a node and a response stand after the writes of a request were
/// made, each in its turn, in the order of the request.
pub open spec fn writes_done<C: ClusterType>(
    a: Node<C>,
    b: Node<C>,
    items: Seq<crate::interaction_model::requests::PathDataModel>,
    out_a: Seq<u8>,
    out_b: Seq<u8>,
    cap: nat,
) -> bool {
    exists|nodes: Seq<Node<C>>, outs: Seq<Seq<u8>>|
        #[trigger] writes_trace(nodes, outs, items, cap) && nodes[0] == a && nodes.last() == b
            && outs[0] == out_a && outs.last() == out_b
}

/// One write of a request leads from the node `mid` and the response
/// `out_mid` to the node `b` and the response `out_b`.
pub open spec fn write_step<C: ClusterType>(
    mid: Node<C>,
    b: Node<C>,
    item: crate::interaction_model::requests::PathDataModel,
    out_mid: Seq<u8>,
    out_b: Seq<u8>,
    cap: nat,
) -> bool {
    &&& mid.wf()
    &&& node_written(mid, b, item.path, item.data, mid.endpoints@.len() as int, 0)
    &&& out_b == write_path_out(mid, item.path, item.data, out_mid, cap)
}

impl<C: ClusterType> DataModel<C> {
    /// Adds the reports that answer a read request: an array under the
    /// context tag 1 with the answers to the paths in the order of the
    /// request. Fails with `NoSpace` where the array cannot be opened, and
    /// then adds nothing, or cannot be closed.
    pub fn consume_read_attr(&self, read_req: &ReadReq, tw: &mut TLVWriter) -> (r: Result<
        (),
        Error,
    >)
        requires
            self.node.wf(),
        ensures
            final(tw).capacity() == old(tw).capacity(),
            (WOut { r, out: final(tw)@ }) == consume_read_out(
                self.node,
                opt_paths(read_req.attr_requests),
                WOut { r: Ok(()), out: old(tw)@ },
                old(tw).capacity(),
            ),
    {
        match &read_req.attr_requests {
            None => Ok(()),
            Some(attr_requests) => {
                let ghost cap = tw.capacity();
                match tw.start_array(TagType::Context(1)) {
                    Ok(()) => {},
                    Err(e) => {
                        return Err(e);
                    },
                }
                let ghost start = tw@;
                let mut i: usize = 0;
                while i < attr_requests.len()
                    invariant
                        i <= attr_requests.len(),
                        self.node.wf(),
                        tw.capacity() == cap,
                        tw@ == read_paths_out(self.node, attr_requests@, i as int, start, cap),
                    decreases attr_requests.len() - i,
                {
                    Self::handle_read_attr_path(&self.node, &attr_requests[i], tw);
                    i = i + 1;
                }
                let ghost body = tw@;
                match tw.end_container() {
                    Ok(()) => Ok(()),
                    Err(e) => Err(e),
                }
            },
        }
    }

    /// Makes the writes of a write request, each in its turn, and adds the
    /// statuses that answer them: an array under the context tag 0. Fails
    /// with `NoSpace` where the array cannot be opened, and then writes
    /// nothing, or cannot be closed.
    pub fn consume_write_attr(
        &mut self,
        write_req: &crate::interaction_model::requests::WriteReq<'_>,
        tw: &mut TLVWriter,
    ) -> (r: Result<(), Error>)
        requires
            old(self).node.wf(),
        ensures
            final(self).node.wf(),
            final(tw).capacity() == old(tw).capacity(),
            ({
                let hdr = header_bytes(TagType::Context(0), crate::tlv::model::TYPE_ARRAY);
                let items = write_req@.write_requests;
                if old(tw)@.len() + hdr.len() > old(tw).capacity() {
                    &&& r == Err::<(), Error>(Error::NoSpace)
                    &&& final(tw)@ == old(tw)@
                    &&& final(self).node == old(self).node
                } else {
                    exists|body: Seq<u8>|
                        {
                            &&& #[trigger] writes_done(
                                old(self).node,
                                final(self).node,
                                items,
                                old(tw)@ + hdr,
                                body,
                                old(tw).capacity(),
                            )
                            &&& (WOut { r, out: final(tw)@ }) == w_put(
                                WOut { r: Ok(()), out: body },
                                old(tw).capacity(),
                                seq![END_OF_CONTAINER],
                            )
                        }
                }
            }),
    {
        let ghost cap = tw.capacity();
        let ghost node0 = self.node;
        match tw.start_array(TagType::Context(0)) {
            Ok(()) => {},
            Err(e) => {
                return Err(e);
            },
        }
        let ghost start = tw@;
        let ghost items = write_req@.write_requests;
        let ghost mut nodes: Seq<Node<C>> = seq![node0];
        let ghost mut outs: Seq<Seq<u8>> = seq![start];
        let mut i: usize = 0;
        while i < write_req.write_requests.len()
            invariant
                i <= write_req.write_requests.len(),
                items == write_req@.write_requests,
                self.node.wf(),
                tw.capacity() == cap,
                nodes.len() == i + 1,
                outs.len() == i + 1,
                nodes[0] == node0,
                outs[0] == start,
                nodes[i as int] == self.node,
                outs[i as int] == tw@,
                forall|k: int|
                    0 <= k < i ==> write_step(
                        #[trigger] nodes[k],
                        nodes[k + 1],
                        items[k],
                        outs[k],
                        outs[k + 1],
                        cap,
                    ),
            decreases write_req.write_requests.len() - i,
        {
            let item = &write_req.write_requests[i];
            assert(items[i as int] == item@);
            Self::handle_write_attr_path(&mut self.node, &item.path, item.data, tw);
            proof {
                let prev_nodes = nodes;
                let prev_outs = outs;
                nodes = nodes.push(self.node);
                outs = outs.push(tw@);
                assert forall|k: int| 0 <= k < i + 1 implies write_step(
                    #[trigger] nodes[k],
                    nodes[k + 1],
                    items[k],
                    outs[k],
                    outs[k + 1],
                    cap,
                ) by {
                    if k < i {
                        assert(nodes[k] == prev_nodes[k] && nodes[k + 1] == prev_nodes[k + 1]);
                        assert(outs[k] == prev_outs[k] && outs[k + 1] == prev_outs[k + 1]);
                        assert(write_step(
                            prev_nodes[k],
                            prev_nodes[k + 1],
                            items[k],
                            prev_outs[k],
                            prev_outs[k + 1],
                            cap,
                        ));
                    } else {
                        assert(nodes[k] == prev_nodes[k]);
                        assert(outs[k] == prev_outs[k]);
                    }
                }
            }
            i = i + 1;
        }
        let ghost body = tw@;
        let r = match tw.end_container() {
            Ok(()) => Ok(()),
            Err(e) => Err(e),
        };
        proof {
            assert(writes_trace(nodes, outs, items, cap));
            assert(nodes.last() == self.node && outs.last() == body);
            assert(writes_done(node0, self.node, items, start, body, cap));
        }
        r
    }

    /// Handles one command of an invoke request.
    pub fn consume_invoke_cmd(
        &mut self,
        cmd_path_ib: &CmdPath,
        data: &TLVElement,
        trans: &mut Transaction,
        tlvwriter: &mut TLVWriter,
    ) -> (r: Result<(), Error>)
        requires
            old(self).node.wf(),
        ensures
            r is Ok,
            final(self).node.wf(),
            final(tlvwriter).capacity() == old(tlvwriter).capacity(),
            (CmdState { out: final(tlvwriter)@, trans: *final(trans) }) == cmd_path_state(
                old(self).node,
                cmd_path_ib.path,
                data@,
                CmdState { out: old(tlvwriter)@, trans: *old(trans) },
                old(tlvwriter).capacity(),
            ),
            node_commanded(
                old(self).node,
                final(self).node,
                cmd_path_ib.path,
                old(self).node.endpoints@.len() as int,
                0,
            ),
    {
        let cmd_req = CommandReq { cmd: *cmd_path_ib, data };
        Self::handle_command_path(&mut self.node, &cmd_req, trans, tlvwriter);
        Ok(())
    }
}

} // verus!
