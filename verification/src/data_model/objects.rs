//! Attributes and clusters.

use vstd::prelude::*;
use crate::cert::model::{elem_bool, elem_u16, elem_u32, elem_u64, elem_u8};
use crate::error::Error;
use crate::interaction_model::status::IMStatusCode;
use crate::tlv::model::{elem_bytes, scalar_size, Elem, TagType, TYPE_S64};
use crate::tlv::parser::{signed_value, TLVElement};
use crate::tlv::writer::{bool_elem, int_elem, uint_elem, TLVWriter};
use crate::utils::bytes::pow256;

verus! {

/// The value of an attribute. A custom attribute has no value here: its
/// cluster reads it in its own way.
#[derive(Debug, PartialEq, Eq, Clone, Copy, Structural)]
pub enum AttrValue {
    Int64(i64),
    Uint8(u8),
    Uint16(u16),
    Uint32(u32),
    Uint64(u64),
    Bool(bool),
    Custom,
}

/// What may be done with an attribute.
#[derive(Debug, PartialEq, Eq, Clone, Copy, Structural)]
pub struct Access {
    pub read: bool,
    pub write: bool,
}

/// Access to read only.
pub fn access_rv() -> (a: Access)
    ensures
        a == (Access { read: true, write: false }),
{
    Access { read: true, write: false }
}

/// Access to read and to write.
pub fn access_rw() -> (a: Access)
    ensures
        a == (Access { read: true, write: true }),
{
    Access { read: true, write: true }
}

/// One attribute of a cluster.
#[derive(Debug, PartialEq, Eq, Clone, Copy, Structural)]
pub struct Attribute {
    pub id: u16,
    pub value: AttrValue,
    pub access: Access,
}

impl Attribute {
    /// An attribute with the given identifier, value and access.
    pub fn new(id: u16, value: AttrValue, access: Access) -> (r: Result<Attribute, Error>)
        ensures
            r == Ok::<Attribute, Error>(Attribute { id, value, access }),
    {
        Ok(Attribute { id, value, access })
    }
}

/// What a cluster holds whatever its kind: its identifier, its attributes,
/// and the version of its data.
pub struct ClusterModel {
    pub id: u32,
    pub attributes: Seq<Attribute>,
    pub data_ver: u32,
}

/// Whether the attributes stand in ascending order of their identifiers, so
/// that no identifier occurs twice.
pub open spec fn attrs_sorted(attrs: Seq<Attribute>) -> bool {
    forall|i: int, j: int| 0 <= i < j < attrs.len() ==> attrs[i].id < attrs[j].id
}

/// The place of the attribute with the given identifier.
pub open spec fn attr_index(attrs: Seq<Attribute>, id: u16) -> Option<int>
    decreases attrs.len(),
{
    if attrs.len() == 0 {
        None
    } else if attrs.last().id == id {
        Some(attrs.len() - 1)
    } else {
        attr_index(attrs.drop_last(), id)
    }
}

/// `attr_index` finds a place that holds the identifier, or there is none.
pub proof fn lemma_attr_index(attrs: Seq<Attribute>, id: u16)
    ensures
        match attr_index(attrs, id) {
            Some(i) => 0 <= i < attrs.len() && attrs[i].id == id,
            None => forall|j: int| 0 <= j < attrs.len() ==> (#[trigger] attrs[j]).id != id,
        },
    decreases attrs.len(),
{
    if attrs.len() > 0 && attrs.last().id != id {
        lemma_attr_index(attrs.drop_last(), id);
        match attr_index(attrs.drop_last(), id) {
            Some(i) => {
                assert(attrs.drop_last()[i] == attrs[i]);
            },
            None => {
                assert forall|j: int| 0 <= j < attrs.len() implies (#[trigger] attrs[j]).id
                    != id by {
                    if j < attrs.len() - 1 {
                        assert(attrs.drop_last()[j] == attrs[j]);
                    }
                }
            },
        }
    }
}

/// The element that a value is written as; a custom value has none.
pub open spec fn value_elem(tag: TagType, v: AttrValue) -> Option<Elem> {
    match v {
        AttrValue::Int64(x) => Some(int_elem(tag, x)),
        AttrValue::Uint8(x) => Some(uint_elem(tag, x as u64)),
        AttrValue::Uint16(x) => Some(uint_elem(tag, x as u64)),
        AttrValue::Uint32(x) => Some(uint_elem(tag, x as u64)),
        AttrValue::Uint64(x) => Some(uint_elem(tag, x)),
        AttrValue::Bool(x) => Some(bool_elem(tag, x)),
        AttrValue::Custom => None,
    }
}

/// The signed number that an element is read as.
pub open spec fn elem_i64(e: Elem) -> Result<i64, Error> {
    if e.code <= TYPE_S64 && e.num < pow256(scalar_size(e.code)) {
        Ok(signed_value(e.num, scalar_size(e.code)) as i64)
    } else {
        Err(Error::TLVTypeMismatch)
    }
}

/// The value of the kind of `current` that an element is read as, or
/// nothing where the element is of another type or `current` is custom.
pub open spec fn value_of_elem(current: AttrValue, e: Elem) -> Option<AttrValue> {
    match current {
        AttrValue::Int64(_) => match elem_i64(e) {
            Ok(v) => Some(AttrValue::Int64(v)),
            Err(_) => None,
        },
        AttrValue::Uint8(_) => match elem_u8(e) {
            Ok(v) => Some(AttrValue::Uint8(v)),
            Err(_) => None,
        },
        AttrValue::Uint16(_) => match elem_u16(e) {
            Ok(v) => Some(AttrValue::Uint16(v)),
            Err(_) => None,
        },
        AttrValue::Uint32(_) => match elem_u32(e) {
            Ok(v) => Some(AttrValue::Uint32(v)),
            Err(_) => None,
        },
        AttrValue::Uint64(_) => match elem_u64(e) {
            Ok(v) => Some(AttrValue::Uint64(v)),
            Err(_) => None,
        },
        AttrValue::Bool(_) => match elem_bool(e) {
            Ok(v) => Some(AttrValue::Bool(v)),
            Err(_) => None,
        },
        AttrValue::Custom => None,
    }
}

/// What reading an attribute of a cluster of the generic kind writes: the
/// value of the attribute as an element under the given tag. An attribute
/// that the cluster has not is `AttributeNotFound`; a custom one is
/// `AttributeIsCustom`.
pub open spec fn base_attr_encoding(m: ClusterModel, tag: TagType, attr_id: u16) -> Result<
    Seq<u8>,
    Error,
> {
    match attr_index(m.attributes, attr_id) {
        None => Err(Error::AttributeNotFound),
        Some(i) => match value_elem(tag, m.attributes[i].value) {
            None => Err(Error::AttributeIsCustom),
            Some(e) => Ok(elem_bytes(e)),
        },
    }
}

/// What a write to an attribute comes to: the cluster with the new value
/// and the next data version, or the status that refuses the write: an
/// attribute that the cluster has not is unsupported; one that may not be
/// written, or is custom, is an unsupported write; a value of another type
/// is an invalid data type; a data version that cannot count further is
/// resource exhaustion.
pub open spec fn write_check(m: ClusterModel, attr_id: u16, e: Elem) -> Result<
    ClusterModel,
    IMStatusCode,
> {
    match attr_index(m.attributes, attr_id) {
        None => Err(IMStatusCode::UnsupportedAttribute),
        Some(i) => {
            let a = m.attributes[i];
            if !a.access.write || a.value == AttrValue::Custom {
                Err(IMStatusCode::UnsupportedWrite)
            } else {
                match value_of_elem(a.value, e) {
                    None => Err(IMStatusCode::InvalidDataType),
                    Some(v) => if m.data_ver == u32::MAX {
                        Err(IMStatusCode::ResourceExhausted)
                    } else {
                        Ok(
                            ClusterModel {
                                id: m.id,
                                attributes: m.attributes.update(i, Attribute { value: v, ..a }),
                                data_ver: (m.data_ver + 1) as u32,
                            },
                        )
                    },
                }
            }
        },
    }
}

/// A write that succeeds raises the data version by exactly one, and
/// keeps the identifier of every attribute.
pub proof fn law_write_bumps_data_version(m: ClusterModel, attr_id: u16, e: Elem)
    requires
        write_check(m, attr_id, e) is Ok,
    ensures
        write_check(m, attr_id, e)->Ok_0.data_ver == m.data_ver + 1,
        write_check(m, attr_id, e)->Ok_0.id == m.id,
        write_check(m, attr_id, e)->Ok_0.attributes.len() == m.attributes.len(),
        attrs_sorted(m.attributes) ==> attrs_sorted(write_check(m, attr_id, e)->Ok_0.attributes),
{
    lemma_attr_index(m.attributes, attr_id);
}

/// The generic part of every cluster: its attributes in ascending order of
/// their identifiers, and the version of its data.
#[derive(Debug)]
pub struct Cluster {
    pub id: u32,
    pub attributes: Vec<Attribute>,
    pub data_ver: u32,
}

impl View for Cluster {
    type V = ClusterModel;

    open spec fn view(&self) -> ClusterModel {
        ClusterModel { id: self.id, attributes: self.attributes@, data_ver: self.data_ver }
    }
}

impl Cluster {
    /// The attributes stand in ascending order of their identifiers.
    pub open spec fn wf(&self) -> bool {
        attrs_sorted(self.attributes@)
    }

    /// Whether the attributes stand in ascending order of their
    /// identifiers.
    pub fn is_wf(&self) -> (b: bool)
        ensures
            b == self.wf(),
    {
        let mut i: usize = 1;
        while i < self.attributes.len()
            invariant
                1 <= i,
                forall|a: int, b: int|
                    0 <= a < b < i && b < self.attributes@.len() ==> self.attributes@[a].id
                        < self.attributes@[b].id,
            decreases self.attributes.len() - i,
        {
            if self.attributes[i - 1].id >= self.attributes[i].id {
                return false;
            }
            i = i + 1;
        }
        true
    }

    /// A cluster without attributes, at data version 0.
    pub fn new(id: u32) -> (r: Result<Cluster, Error>)
        ensures
            r is Ok,
            r->Ok_0@ == (ClusterModel { id, attributes: Seq::empty(), data_ver: 0 }),
            r->Ok_0.wf(),
    {
        Ok(Cluster { id, attributes: Vec::new(), data_ver: 0 })
    }

    /// The place of the attribute with the given identifier.
    pub fn find_attribute(&self, attr_id: u16) -> (r: Option<usize>)
        ensures
            match r {
                Some(i) => i < self.attributes.len() && self.attributes@[i as int].id == attr_id
                    && attr_index(self@.attributes, attr_id) == Some(i as int),
                None => attr_index(self@.attributes, attr_id) is None,
            },
    {
        let mut i: usize = self.attributes.len();
        assert(self@.attributes.subrange(0, i as int) =~= self@.attributes);
        while i > 0
            invariant
                i <= self.attributes.len(),
                attr_index(self@.attributes, attr_id) == attr_index(
                    self@.attributes.subrange(0, i as int),
                    attr_id,
                ),
            decreases i,
        {
            let ghost cur = self@.attributes.subrange(0, i as int);
            assert(cur.last() == self.attributes@[i - 1]);
            assert(cur.drop_last() =~= self@.attributes.subrange(0, i - 1));
            if self.attributes[i - 1].id == attr_id {
                return Some(i - 1);
            }
            i = i - 1;
        }
        None
    }

    /// Adds an attribute at its place in the order of identifiers. Fails
    /// with `Invalid`, and changes nothing, where the cluster has an
    /// attribute with that identifier.
    pub fn add_attribute(&mut self, attr: Attribute) -> (r: Result<(), Error>)
        requires
            old(self).wf(),
        ensures
            final(self).wf(),
            final(self).id == old(self).id,
            final(self).data_ver == old(self).data_ver,
            attr_index(old(self)@.attributes, attr.id) is Some ==> r == Err::<(), Error>(
                Error::Invalid,
            ) && final(self)@ == old(self)@,
            attr_index(old(self)@.attributes, attr.id) is None ==> r is Ok && exists|k: int|
                0 <= k <= old(self)@.attributes.len() && final(self)@.attributes == old(
                    self,
                )@.attributes.insert(k, attr),
    {
        proof {
            lemma_attr_index(self@.attributes, attr.id);
        }
        let mut k: usize = 0;
        while k < self.attributes.len() && self.attributes[k].id < attr.id
            invariant
                k <= self.attributes.len(),
                self.attributes == old(self).attributes,
                forall|j: int| 0 <= j < k ==> (#[trigger] self.attributes@[j]).id < attr.id,
            decreases self.attributes.len() - k,
        {
            k = k + 1;
        }
        if k < self.attributes.len() && self.attributes[k].id == attr.id {
            return Err(Error::Invalid);
        }
        proof {
            if attr_index(self@.attributes, attr.id) is Some {
                let i = attr_index(self@.attributes, attr.id)->Some_0;
                if i < k {
                    assert(self.attributes@[i].id < attr.id);
                } else if i > k {
                    assert(self.attributes@[k as int].id < self.attributes@[i].id);
                }
            }
        }
        self.attributes.insert(k, attr);
        proof {
            let old_attrs = old(self)@.attributes;
            let new_attrs = self@.attributes;
            assert(new_attrs == old_attrs.insert(k as int, attr));
            assert forall|i: int, j: int| 0 <= i < j < new_attrs.len() implies new_attrs[i].id
                < new_attrs[j].id by {
                if j < k {
                    assert(new_attrs[i] == old_attrs[i] && new_attrs[j] == old_attrs[j]);
                } else if j == k {
                    assert(new_attrs[i] == old_attrs[i]);
                } else if i < k {
                    assert(new_attrs[i] == old_attrs[i] && new_attrs[j] == old_attrs[j - 1]);
                    if j - 1 > k {
                        assert(old_attrs[k as int].id < old_attrs[j - 1].id);
                    }
                } else if i == k {
                    assert(new_attrs[j] == old_attrs[j - 1]);
                    if j - 1 > k {
                        assert(old_attrs[k as int].id < old_attrs[j - 1].id);
                    }
                } else {
                    assert(new_attrs[i] == old_attrs[i - 1] && new_attrs[j] == old_attrs[j - 1]);
                }
            }
        }
        Ok(())
    }

    /// The value of an attribute; unsupported where the cluster has no
    /// attribute with that identifier.
    pub fn read_attribute_raw(&self, attr_id: u16) -> (r: Result<AttrValue, IMStatusCode>)
        ensures
            r == match attr_index(self@.attributes, attr_id) {
                Some(i) => Ok::<AttrValue, IMStatusCode>(self@.attributes[i].value),
                None => Err::<AttrValue, IMStatusCode>(IMStatusCode::UnsupportedAttribute),
            },
    {
        match self.find_attribute(attr_id) {
            Some(i) => Ok(self.attributes[i].value),
            None => Err(IMStatusCode::UnsupportedAttribute),
        }
    }

    /// The version of the data of the cluster.
    pub fn get_dataver(&self) -> (v: u32)
        ensures
            v == self@.data_ver,
    {
        self.data_ver
    }
}

} // verus!

verus! {

/// How the write of a handler ends that has `enc` to write: where there is
/// something to write, with the bytes added where they fit and `NoSpace`
/// otherwise; where there is an error instead, with that error. On failure
/// what was there before is still there.
pub open spec fn handler_outcome(
    enc: Result<Seq<u8>, Error>,
    before: Seq<u8>,
    cap: nat,
    r: Result<(), Error>,
    after: Seq<u8>,
) -> bool {
    match enc {
        Ok(x) => crate::tlv::writer::write_or_fail(before, cap, x, r, after),
        Err(e) => r == Err::<(), Error>(e) && crate::tlv::writer::extends(before, after),
    }
}

/// The bytes after `item` was added where it fits, and left out where it
/// does not.
pub open spec fn emit_if_fits(before: Seq<u8>, cap: nat, item: Seq<u8>) -> Seq<u8> {
    if before.len() + item.len() <= cap {
        before + item
    } else {
        before
    }
}

impl Cluster {
    /// Writes the value of an attribute as an element under `tag`.
    pub fn read_attribute(&self, tag: TagType, tw: &mut TLVWriter, attr_id: u16) -> (r: Result<
        (),
        Error,
    >)
        requires
            tag.wf(),
        ensures
            final(tw).capacity() == old(tw).capacity(),
            handler_outcome(
                base_attr_encoding(self@, tag, attr_id),
                old(tw)@,
                old(tw).capacity(),
                r,
                final(tw)@,
            ),
    {
        let idx: usize = match self.find_attribute(attr_id) {
            Some(i) => i,
            None => {
                assert(tw@.subrange(0, tw@.len() as int) =~= tw@);
                return Err(Error::AttributeNotFound);
            },
        };
        let r = match self.attributes[idx].value {
            AttrValue::Int64(x) => tw.i64(tag, x),
            AttrValue::Uint8(x) => tw.u8(tag, x),
            AttrValue::Uint16(x) => tw.u16(tag, x),
            AttrValue::Uint32(x) => tw.u32(tag, x),
            AttrValue::Uint64(x) => tw.u64(tag, x),
            AttrValue::Bool(x) => tw.bool(tag, x),
            AttrValue::Custom => Err(Error::AttributeIsCustom),
        };
        proof {
            assert(tw@.subrange(0, old(tw)@.len() as int) =~= old(tw)@) by {
                if r is Ok {
                    let e = value_elem(tag, self@.attributes[idx as int].value)->Some_0;
                    assert(tw@ == old(tw)@ + elem_bytes(e));
                }
            }
        }
        r
    }

    /// Writes a new value, read from `data`, to an attribute, and raises
    /// the data version by one. A write that is refused changes nothing.
    pub fn write_attribute(&mut self, data: &TLVElement, attr_id: u16) -> (r: Result<
        (),
        IMStatusCode,
    >)
        ensures
            match r {
                Ok(()) => write_check(old(self)@, attr_id, data@) == Ok::<
                    ClusterModel,
                    IMStatusCode,
                >(final(self)@),
                Err(s) => write_check(old(self)@, attr_id, data@) == Err::<
                    ClusterModel,
                    IMStatusCode,
                >(s) && *final(self) == *old(self),
            },
    {
        let idx: usize = match self.find_attribute(attr_id) {
            Some(i) => i,
            None => {
                return Err(IMStatusCode::UnsupportedAttribute);
            },
        };
        let a: Attribute = self.attributes[idx];
        if !a.access.write {
            return Err(IMStatusCode::UnsupportedWrite);
        }
        let value: AttrValue = match a.value {
            AttrValue::Int64(_) => match data.i64() {
                Ok(v) => AttrValue::Int64(v),
                Err(_) => {
                    return Err(IMStatusCode::InvalidDataType);
                },
            },
            AttrValue::Uint8(_) => match data.u8() {
                Ok(v) => AttrValue::Uint8(v),
                Err(_) => {
                    return Err(IMStatusCode::InvalidDataType);
                },
            },
            AttrValue::Uint16(_) => match data.u16() {
                Ok(v) => AttrValue::Uint16(v),
                Err(_) => {
                    return Err(IMStatusCode::InvalidDataType);
                },
            },
            AttrValue::Uint32(_) => match data.u32() {
                Ok(v) => AttrValue::Uint32(v),
                Err(_) => {
                    return Err(IMStatusCode::InvalidDataType);
                },
            },
            AttrValue::Uint64(_) => match data.u64() {
                Ok(v) => AttrValue::Uint64(v),
                Err(_) => {
                    return Err(IMStatusCode::InvalidDataType);
                },
            },
            AttrValue::Bool(_) => match data.bool() {
                Ok(v) => AttrValue::Bool(v),
                Err(_) => {
                    return Err(IMStatusCode::InvalidDataType);
                },
            },
            AttrValue::Custom => {
                return Err(IMStatusCode::UnsupportedWrite);
            },
        };
        if self.data_ver == u32::MAX {
            return Err(IMStatusCode::ResourceExhausted);
        }
        self.attributes[idx] = Attribute { id: a.id, value, access: a.access };
        self.data_ver = self.data_ver + 1;
        proof {
            assert(self@.attributes =~= old(self)@.attributes.update(
                idx as int,
                Attribute { value, ..a },
            ));
        }
        Ok(())
    }
}

/// How far a transaction has come.
#[derive(Debug, PartialEq, Eq, Clone, Copy, Structural)]
pub enum TransactionState {
    Ongoing,
    Complete,
}

/// How the session of a transaction was set up.
#[derive(Debug, PartialEq, Eq, Clone, Copy, Structural)]
pub enum SessionMode {
    PlainText,
    Case(u8),
    Pase,
}

/// The transaction that a request belongs to: its state, and what the
/// handlers need of its session.
#[derive(Debug, PartialEq, Eq, Clone, Copy, Structural)]
pub struct Transaction {
    pub state: TransactionState,
    pub session_mode: SessionMode,
    pub local_fabric_idx: Option<u8>,
}

impl Transaction {
    /// A transaction that is going on.
    pub fn new(session_mode: SessionMode, local_fabric_idx: Option<u8>) -> (t: Transaction)
        ensures
            t == (Transaction { state: TransactionState::Ongoing, session_mode, local_fabric_idx }),
    {
        Transaction { state: TransactionState::Ongoing, session_mode, local_fabric_idx }
    }

    /// Marks the transaction complete.
    pub fn complete(&mut self)
        ensures
            *final(self) == (Transaction { state: TransactionState::Complete, ..*old(self) }),
    {
        self.state = TransactionState::Complete;
    }

    /// Whether the transaction is complete.
    pub fn is_complete(&self) -> (b: bool)
        ensures
            b == (self.state == TransactionState::Complete),
    {
        self.state == TransactionState::Complete
    }
}

/// The path of a command.
#[derive(Debug, PartialEq, Eq, Clone, Copy, Structural)]
pub struct CmdPath {
    pub path: crate::interaction_model::messages::GenericPath,
}

impl CmdPath {
    /// The path with the given components.
    pub fn new(endpoint: Option<u16>, cluster: Option<u32>, command: Option<u16>) -> (p: CmdPath)
        ensures
            p.path.endpoint == endpoint,
            p.path.cluster == cluster,
            p.path.leaf == crate::interaction_model::messages::widen_leaf(command),
    {
        CmdPath {
            path: crate::interaction_model::messages::GenericPath {
                endpoint,
                cluster,
                leaf: match command {
                    Some(c) => Some(c as u32),
                    None => None,
                },
            },
        }
    }
}

/// A command to handle: its path and its data.
#[derive(Debug)]
pub struct CommandReq<'a> {
    pub cmd: CmdPath,
    pub data: &'a TLVElement,
}

/// What the handling of a command does besides changing the cluster: what
/// it returns, what it adds to the response where that fits, and the state
/// in which it leaves the transaction.
pub struct CommandEffect {
    pub result: Result<(), IMStatusCode>,
    pub response: Seq<u8>,
    pub trans: Transaction,
}

/// What every cluster offers to the data model. The functions of the
/// model say what an implementation does; this library proves its callers
/// against them, and each implementation answers for its own.
pub trait ClusterType {
    /// The generic part of the cluster.
    open spec fn base_model(&self) -> ClusterModel {
        arbitrary()
    }

    /// What reading an attribute writes, or the error it ends with.
    open spec fn attr_encoding(&self, tag: TagType, attr_id: u16) -> Result<Seq<u8>, Error> {
        arbitrary()
    }

    /// What the handling of a command does.
    open spec fn command_effect(&self, cmd: CmdPath, data: Elem, trans: Transaction)
        -> CommandEffect {
        arbitrary()
    }

    /// Whether a write to an attribute is accepted, or the status that
    /// refuses it.
    open spec fn write_status(&self, data: Elem, attr_id: u16) -> Result<(), IMStatusCode> {
        arbitrary()
    }

    /// The generic part of the cluster.
    fn base(&self) -> (c: &Cluster)
        ensures
            c@ == self.base_model(),
    ;

    /// Writes an attribute as TLV under `tag`.
    fn read_attribute(&self, tag: TagType, tw: &mut TLVWriter, attr_id: u16) -> (r: Result<
        (),
        Error,
    >)
        requires
            tag.wf(),
        ensures
            final(tw).capacity() == old(tw).capacity(),
            handler_outcome(
                self.attr_encoding(tag, attr_id),
                old(tw)@,
                old(tw).capacity(),
                r,
                final(tw)@,
            ),
    ;

    /// Validates `data` and writes it to an attribute. A write that
    /// succeeds raises the data version by exactly one; a write that is
    /// refused leaves the generic part as it is.
    fn write_attribute(&mut self, data: &TLVElement, attr_id: u16) -> (r: Result<(), IMStatusCode>)
        ensures
            r == old(self).write_status(data@, attr_id),
            final(self).base_model().id == old(self).base_model().id,
            attrs_sorted(old(self).base_model().attributes) ==> attrs_sorted(
                final(self).base_model().attributes,
            ),
            r is Ok ==> final(self).base_model().data_ver == old(self).base_model().data_ver + 1,
            r is Err ==> final(self).base_model() == old(self).base_model(),
    ;

    /// Handles a command: returns success or a status code, and may add a
    /// response and complete the transaction.
    fn handle_command(&mut self, req: &CommandReq<'_>, trans: &mut Transaction, resp: &mut TLVWriter)
        -> (r: Result<(), IMStatusCode>)
        ensures
            final(self).base_model().id == old(self).base_model().id,
            attrs_sorted(old(self).base_model().attributes) ==> attrs_sorted(
                final(self).base_model().attributes,
            ),
            final(resp).capacity() == old(resp).capacity(),
            r == old(self).command_effect(req.cmd, req.data@, *old(trans)).result,
            final(resp)@ == emit_if_fits(
                old(resp)@,
                old(resp).capacity(),
                old(self).command_effect(req.cmd, req.data@, *old(trans)).response,
            ),
            *final(trans) == old(self).command_effect(req.cmd, req.data@, *old(trans)).trans,
    ;
}

impl ClusterType for Cluster {
    open spec fn base_model(&self) -> ClusterModel {
        self@
    }

    open spec fn attr_encoding(&self, tag: TagType, attr_id: u16) -> Result<Seq<u8>, Error> {
        base_attr_encoding(self@, tag, attr_id)
    }

    open spec fn write_status(&self, data: Elem, attr_id: u16) -> Result<(), IMStatusCode> {
        match write_check(self@, attr_id, data) {
            Ok(_) => Ok(()),
            Err(s) => Err(s),
        }
    }

    /// A cluster of the generic kind has no commands.
    open spec fn command_effect(&self, cmd: CmdPath, data: Elem, trans: Transaction)
        -> CommandEffect {
        CommandEffect {
            result: Err(IMStatusCode::UnsupportedCommand),
            response: Seq::empty(),
            trans,
        }
    }

    fn base(&self) -> (c: &Cluster) {
        self
    }

    fn read_attribute(&self, tag: TagType, tw: &mut TLVWriter, attr_id: u16) -> (r: Result<
        (),
        Error,
    >) {
        Cluster::read_attribute(self, tag, tw, attr_id)
    }

    fn write_attribute(&mut self, data: &TLVElement, attr_id: u16) -> (r: Result<
        (),
        IMStatusCode,
    >) {
        proof {
            if write_check(self@, attr_id, data@) is Ok {
                law_write_bumps_data_version(self@, attr_id, data@);
            }
        }
        match Cluster::write_attribute(self, data, attr_id) {
            Ok(()) => Ok(()),
            Err(s) => Err(s),
        }
    }

    fn handle_command(&mut self, req: &CommandReq<'_>, trans: &mut Transaction, resp: &mut TLVWriter)
        -> (r: Result<(), IMStatusCode>) {
        assert(resp@ + Seq::<u8>::empty() =~= resp@);
        Err(IMStatusCode::UnsupportedCommand)
    }
}

} // verus!
