//! The paths, statuses and requests that the interaction model carries in
//! TLV.

use vstd::prelude::*;
use crate::error::Error;
use crate::interaction_model::status::IMStatusCode;
use crate::tlv::model::{container, Elem, TagType, TYPE_LIST, TYPE_STRUCT};
use crate::tlv::parser::{elems_view, TLVElement};
use crate::tlv::record::{opt_member, present};
use crate::tlv::writer::uint_elem;

verus! {

/// The data of an attribute: an element as it arrived, or data that a
/// closure makes when it is written, which a write cannot take.
#[derive(Debug)]
pub enum AttrDataType<'a> {
    Closure,
    Tlv(&'a TLVElement),
}

/// A path into the data model. A component that is absent is a wildcard: it
/// stands for every value that is present at its level.
#[derive(Debug, PartialEq, Eq, Clone, Copy, Structural)]
pub struct GenericPath {
    pub endpoint: Option<u16>,
    pub cluster: Option<u32>,
    pub leaf: Option<u32>,
}

impl GenericPath {
    /// A path with the given components.
    pub fn new(endpoint: Option<u16>, cluster: Option<u32>, leaf: Option<u32>) -> (p: GenericPath)
        ensures
            p == (GenericPath { endpoint, cluster, leaf }),
    {
        GenericPath { endpoint, cluster, leaf }
    }

    /// Whether a component is absent.
    pub open spec fn has_wildcard(self) -> bool {
        self.endpoint is None || self.cluster is None || self.leaf is None
    }

    /// The three components where none is absent; `Invalid` otherwise.
    pub fn not_wildcard(&self) -> (r: Result<(u16, u32, u32), Error>)
        ensures
            !self.has_wildcard() ==> r == Ok::<(u16, u32, u32), Error>(
                (self.endpoint->Some_0, self.cluster->Some_0, self.leaf->Some_0),
            ),
            self.has_wildcard() ==> r == Err::<(u16, u32, u32), Error>(Error::Invalid),
    {
        match (self.endpoint, self.cluster, self.leaf) {
            (Some(e), Some(c), Some(l)) => Ok((e, c, l)),
            _ => Err(Error::Invalid),
        }
    }

    /// Whether a component is absent.
    pub fn is_wildcard(&self) -> (b: bool)
        ensures
            b == self.has_wildcard(),
    {
        self.endpoint.is_none() || self.cluster.is_none() || self.leaf.is_none()
    }
}

/// The element that an optional number is written as under a context tag.
pub open spec fn opt_uint(n: u8, v: Option<u64>) -> Option<Elem> {
    match v {
        Some(x) => Some(uint_elem(TagType::Context(n), x)),
        None => None,
    }
}

/// A number of sixteen bits as one of sixty-four, where it is there.
pub open spec fn widen16(v: Option<u16>) -> Option<u64> {
    match v {
        Some(x) => Some(x as u64),
        None => None,
    }
}

/// The identifier of a command or attribute as the leaf of a path.
pub open spec fn widen_leaf(v: Option<u16>) -> Option<u32> {
    match v {
        Some(x) => Some(x as u32),
        None => None,
    }
}

/// A number of thirty-two bits as one of sixty-four, where it is there.
pub open spec fn widen32(v: Option<u32>) -> Option<u64> {
    match v {
        Some(x) => Some(x as u64),
        None => None,
    }
}

/// The list that the path of an attribute is written as: endpoint, cluster
/// and attribute under the context tags 2, 3 and 4, each only where it is
/// present.
pub open spec fn attr_path_elem(tag: TagType, p: GenericPath) -> Elem {
    container(
        tag,
        TYPE_LIST,
        present(
            seq![
                opt_uint(2, widen16(p.endpoint)),
                opt_uint(3, widen32(p.cluster)),
                opt_uint(4, widen32(p.leaf)),
            ],
        ),
    )
}

/// The list that the path of a command is written as: endpoint, cluster and
/// command under the context tags 0, 1 and 2, each only where it is
/// present.
pub open spec fn cmd_path_elem(tag: TagType, p: GenericPath) -> Elem {
    container(
        tag,
        TYPE_LIST,
        present(
            seq![
                opt_uint(0, widen16(p.endpoint)),
                opt_uint(1, widen32(p.cluster)),
                opt_uint(2, widen32(p.leaf)),
            ],
        ),
    )
}

/// The structure that a status is written as: the status code under the
/// context tag 0 and the cluster status under the context tag 1.
pub open spec fn status_elem(tag: TagType, status: IMStatusCode, cluster_status: u16) -> Elem {
    container(
        tag,
        TYPE_STRUCT,
        seq![
            uint_elem(TagType::Context(0), status.number() as u64),
            uint_elem(TagType::Context(1), cluster_status as u64),
        ],
    )
}

/// The structure that the status of an attribute is written as: the path
/// under the context tag 0 and the status under the context tag 1.
pub open spec fn attr_status_elem(tag: TagType, p: GenericPath, status: IMStatusCode) -> Elem {
    container(
        tag,
        TYPE_STRUCT,
        seq![
            attr_path_elem(TagType::Context(0), p),
            status_elem(TagType::Context(1), status, 0),
        ],
    )
}

/// The report that stands for the status of an attribute in a read
/// response: an anonymous structure with the status of the attribute under
/// the context tag 0.
pub open spec fn attr_status_report(p: GenericPath, status: IMStatusCode) -> Elem {
    container(
        TagType::Anonymous,
        TYPE_STRUCT,
        seq![attr_status_elem(TagType::Context(0), p, status)],
    )
}

/// The response that stands for the status of a command: an anonymous
/// structure that holds, under the context tag 1, the path under the
/// context tag 0 and the status under the context tag 1.
pub open spec fn cmd_status_response(p: GenericPath, status: IMStatusCode) -> Elem {
    container(
        TagType::Anonymous,
        TYPE_STRUCT,
        seq![
            container(
                TagType::Context(1),
                TYPE_STRUCT,
                seq![
                    cmd_path_elem(TagType::Context(0), p),
                    status_elem(TagType::Context(1), status, 0),
                ],
            ),
        ],
    )
}

fn push_opt_uint(out: &mut Vec<TLVElement>, n: u8, v: Option<u64>)
    ensures
        elems_view(final(out)@) == elems_view(old(out)@) + opt_member(opt_uint(n, v)),
{
    match v {
        Some(x) => {
            let e = TLVElement::new_uint(TagType::Context(n), x);
            out.push(e);
            assert(elems_view(out@) =~= elems_view(old(out)@) + opt_member(opt_uint(n, v)));
        },
        None => {
            assert(elems_view(out@) =~= elems_view(old(out)@) + opt_member(opt_uint(n, v)));
        },
    }
}

/// The members of a record of three fields.
pub proof fn lemma_present_three(a: Option<Elem>, b: Option<Elem>, c: Option<Elem>)
    ensures
        present(seq![a, b, c]) == opt_member(a) + opt_member(b) + opt_member(c),
{
    crate::tlv::record::lemma_present_concat(seq![a, b], seq![c]);
    crate::tlv::record::lemma_present_concat(seq![a], seq![b]);
    crate::tlv::record::lemma_present_one(a);
    crate::tlv::record::lemma_present_one(b);
    crate::tlv::record::lemma_present_one(c);
    assert(seq![a, b, c] =~= seq![a, b] + seq![c]);
    assert(seq![a, b] =~= seq![a] + seq![b]);
}

fn widen_u16(v: Option<u16>) -> (r: Option<u64>)
    ensures
        r == widen16(v),
{
    match v {
        Some(x) => Some(x as u64),
        None => None,
    }
}

fn widen_u32(v: Option<u32>) -> (r: Option<u64>)
    ensures
        r == widen32(v),
{
    match v {
        Some(x) => Some(x as u64),
        None => None,
    }
}

/// The list of a path, with its three components under the context tags
/// `first`, `first + 1` and `first + 2`.
fn path_element(tag: TagType, p: &GenericPath, first: u8) -> (e: TLVElement)
    requires
        first <= 2,
    ensures
        e@ == container(
            tag,
            TYPE_LIST,
            present(
                seq![
                    opt_uint(first, widen16(p.endpoint)),
                    opt_uint((first + 1) as u8, widen32(p.cluster)),
                    opt_uint((first + 2) as u8, widen32(p.leaf)),
                ],
            ),
        ),
{
    let mut members: Vec<TLVElement> = Vec::new();
    proof {
        lemma_present_three(
            opt_uint(first, widen16(p.endpoint)),
            opt_uint((first + 1) as u8, widen32(p.cluster)),
            opt_uint((first + 2) as u8, widen32(p.leaf)),
        );
        assert(elems_view(members@) =~= Seq::<Elem>::empty());
    }
    push_opt_uint(&mut members, first, widen_u16(p.endpoint));
    push_opt_uint(&mut members, first + 1, widen_u32(p.cluster));
    push_opt_uint(&mut members, first + 2, widen_u32(p.leaf));
    proof {
        assert(elems_view(members@) =~= opt_member(opt_uint(first, widen16(p.endpoint)))
            + opt_member(opt_uint((first + 1) as u8, widen32(p.cluster))) + opt_member(
            opt_uint((first + 2) as u8, widen32(p.leaf)),
        ));
    }
    TLVElement::new_container(tag, TYPE_LIST, members)
}

/// The list that the path of an attribute is written as.
pub fn attr_path_element(tag: TagType, p: &GenericPath) -> (e: TLVElement)
    ensures
        e@ == attr_path_elem(tag, *p),
{
    path_element(tag, p, 2)
}

/// The list that the path of a command is written as.
pub fn cmd_path_element(tag: TagType, p: &GenericPath) -> (e: TLVElement)
    ensures
        e@ == cmd_path_elem(tag, *p),
{
    path_element(tag, p, 0)
}

/// The structure that a status is written as.
pub fn status_element(tag: TagType, status: IMStatusCode, cluster_status: u16) -> (e: TLVElement)
    ensures
        e@ == status_elem(tag, status, cluster_status),
{
    let mut members: Vec<TLVElement> = Vec::new();
    members.push(TLVElement::new_uint(TagType::Context(0), status.to_u16() as u64));
    members.push(TLVElement::new_uint(TagType::Context(1), cluster_status as u64));
    assert(elems_view(members@) =~= seq![
        uint_elem(TagType::Context(0), status.number() as u64),
        uint_elem(TagType::Context(1), cluster_status as u64),
    ]);
    TLVElement::new_container(tag, TYPE_STRUCT, members)
}

/// The structure that the status of an attribute is written as.
pub fn attr_status_element(tag: TagType, p: &GenericPath, status: IMStatusCode) -> (e: TLVElement)
    ensures
        e@ == attr_status_elem(tag, *p, status),
{
    let mut members: Vec<TLVElement> = Vec::new();
    members.push(attr_path_element(TagType::Context(0), p));
    members.push(status_element(TagType::Context(1), status, 0));
    assert(elems_view(members@) =~= seq![
        attr_path_elem(TagType::Context(0), *p),
        status_elem(TagType::Context(1), status, 0),
    ]);
    TLVElement::new_container(tag, TYPE_STRUCT, members)
}

/// The report that stands for the status of an attribute in a read
/// response.
pub fn attr_status_report_element(p: &GenericPath, status: IMStatusCode) -> (e: TLVElement)
    ensures
        e@ == attr_status_report(*p, status),
{
    let mut members: Vec<TLVElement> = Vec::new();
    members.push(attr_status_element(TagType::Context(0), p, status));
    assert(elems_view(members@) =~= seq![attr_status_elem(TagType::Context(0), *p, status)]);
    TLVElement::new_container(TagType::Anonymous, TYPE_STRUCT, members)
}

/// The response that stands for the status of a command.
pub fn cmd_status_response_element(p: &GenericPath, status: IMStatusCode) -> (e: TLVElement)
    ensures
        e@ == cmd_status_response(*p, status),
{
    let mut inner: Vec<TLVElement> = Vec::new();
    inner.push(cmd_path_element(TagType::Context(0), p));
    inner.push(status_element(TagType::Context(1), status, 0));
    assert(elems_view(inner@) =~= seq![
        cmd_path_elem(TagType::Context(0), *p),
        status_elem(TagType::Context(1), status, 0),
    ]);
    let mut members: Vec<TLVElement> = Vec::new();
    members.push(TLVElement::new_container(TagType::Context(1), TYPE_STRUCT, inner));
    assert(elems_view(members@) =~= seq![
        container(
            TagType::Context(1),
            TYPE_STRUCT,
            seq![
                cmd_path_elem(TagType::Context(0), *p),
                status_elem(TagType::Context(1), status, 0),
            ],
        ),
    ]);
    TLVElement::new_container(TagType::Anonymous, TYPE_STRUCT, members)
}

} // verus!

verus! {

/// The list that a path is written as is well formed.
pub proof fn lemma_path_elem_wf(tag: TagType, p: GenericPath, first: u8)
    requires
        tag.wf(),
        first <= 2,
    ensures
        container(
            tag,
            TYPE_LIST,
            present(
                seq![
                    opt_uint(first, widen16(p.endpoint)),
                    opt_uint((first + 1) as u8, widen32(p.cluster)),
                    opt_uint((first + 2) as u8, widen32(p.leaf)),
                ],
            ),
        ).wf(),
{
    let a = opt_uint(first, widen16(p.endpoint));
    let b = opt_uint((first + 1) as u8, widen32(p.cluster));
    let c = opt_uint((first + 2) as u8, widen32(p.leaf));
    lemma_present_three(a, b, c);
    crate::utils::bytes::lemma_pow256_values();
    let s = present(seq![a, b, c]);
    assert forall|i: int| 0 <= i < s.len() implies (#[trigger] s[i]).wf() by {
        let la = opt_member(a).len();
        let lb = opt_member(b).len();
        if i < la {
            assert(s[i] == a->Some_0);
        } else if i < la + lb {
            assert(s[i] == b->Some_0);
        } else {
            assert(s[i] == c->Some_0);
        }
    }
}

} // verus!

verus! {

/// The structure that a status is written as is well formed.
pub proof fn lemma_status_elem_wf(tag: TagType, status: IMStatusCode, cluster_status: u16)
    requires
        tag.wf(),
    ensures
        status_elem(tag, status, cluster_status).wf(),
{
    crate::utils::bytes::lemma_pow256_values();
    let e = status_elem(tag, status, cluster_status);
    assert forall|i: int| 0 <= i < e.children.len() implies (#[trigger] e.children[i]).wf() by {}
}

/// The report that stands for the status of an attribute is well formed.
pub proof fn lemma_attr_status_report_wf(p: GenericPath, status: IMStatusCode)
    ensures
        attr_status_report(p, status).wf(),
        attr_status_elem(TagType::Anonymous, p, status).wf(),
{
    lemma_path_elem_wf(TagType::Context(0), p, 2);
    lemma_status_elem_wf(TagType::Context(1), status, 0);
    let inner = attr_status_elem(TagType::Context(0), p, status);
    assert forall|i: int| 0 <= i < inner.children.len() implies (
    #[trigger] inner.children[i]).wf() by {}
    assert(inner.wf());
    let e = attr_status_report(p, status);
    assert forall|i: int| 0 <= i < e.children.len() implies (#[trigger] e.children[i]).wf() by {}
    let anon = attr_status_elem(TagType::Anonymous, p, status);
    assert forall|i: int| 0 <= i < anon.children.len() implies (
    #[trigger] anon.children[i]).wf() by {}
}

/// The response that stands for the status of a command is well formed.
pub proof fn lemma_cmd_status_response_wf(p: GenericPath, status: IMStatusCode)
    ensures
        cmd_status_response(p, status).wf(),
{
    lemma_path_elem_wf(TagType::Context(0), p, 0);
    lemma_status_elem_wf(TagType::Context(1), status, 0);
    let inner = container(
        TagType::Context(1),
        TYPE_STRUCT,
        seq![cmd_path_elem(TagType::Context(0), p), status_elem(TagType::Context(1), status, 0)],
    );
    assert forall|i: int| 0 <= i < inner.children.len() implies (
    #[trigger] inner.children[i]).wf() by {}
    assert(inner.wf());
    let e = cmd_status_response(p, status);
    assert forall|i: int| 0 <= i < e.children.len() implies (#[trigger] e.children[i]).wf() by {}
}

} // verus!
