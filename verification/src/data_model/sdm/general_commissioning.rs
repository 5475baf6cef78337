//! The general commissioning cluster: arming the fail-safe, setting the
//! regulatory configuration, and completing commissioning.

use vstd::prelude::*;
use crate::cert::model::elem_u8;
use crate::data_model::objects::{
    access_rv, access_rw, base_attr_encoding, emit_if_fits, law_write_bumps_data_version,
    write_check, AttrValue, Attribute, Cluster, ClusterModel, ClusterType, CmdPath, CommandEffect,
    CommandReq, Transaction, TransactionState,
};
use crate::data_model::sdm::failsafe::{armed_by, disarmed_by, FailSafe};
use crate::error::Error;
use crate::interaction_model::messages::{cmd_path_elem, cmd_path_element, GenericPath};
use crate::interaction_model::status::IMStatusCode;
use crate::tlv::model::{
    container, elem_bytes, is_container, is_string, Elem, TagType, TYPE_STRUCT, TYPE_UTF8L,
};
use crate::tlv::parser::{elems_view, find_ctx, lemma_children_view, TLVElement};
use crate::tlv::writer::{leaf, uint_elem, TLVWriter};

verus! {

/// The status that a response of the cluster carries.
#[derive(Debug, PartialEq, Eq, Clone, Copy, Structural)]
pub enum CommissioningError {
    NoError,
    ErrValueOutsideRange,
    ErrInvalidAuth,
    ErrNotCommissioning,
}

impl CommissioningError {
    /// The number of the status on the wire.
    pub open spec fn number(self) -> u8 {
        match self {
            CommissioningError::NoError => 0,
            CommissioningError::ErrValueOutsideRange => 1,
            CommissioningError::ErrInvalidAuth => 2,
            CommissioningError::ErrNotCommissioning => 3,
        }
    }

    /// The number of the status on the wire.
    pub fn to_u8(self) -> (n: u8)
        ensures
            n == self.number(),
    {
        match self {
            CommissioningError::NoError => 0,
            CommissioningError::ErrValueOutsideRange => 1,
            CommissioningError::ErrInvalidAuth => 2,
            CommissioningError::ErrNotCommissioning => 3,
        }
    }
}

pub const CLUSTER_GENERAL_COMMISSIONING_ID: u32 = 0x0030;

pub const ATTR_BREAD_CRUMB: u16 = 0;
pub const ATTR_BASIC_COMMISSIONING_INFO: u16 = 1;
pub const ATTR_REG_CONFIG: u16 = 2;
pub const ATTR_LOCATION_CAPABILITY: u16 = 3;

pub const CMD_ARMFAILSAFE_ID: u16 = 0x00;
pub const CMD_ARMFAILSAFE_RESPONSE_ID: u16 = 0x01;
pub const CMD_SETREGULATORYCONFIG_ID: u16 = 0x02;
pub const CMD_SETREGULATORYCONFIG_RESPONSE_ID: u16 = 0x03;
pub const CMD_COMMISSIONING_COMPLETE_ID: u16 = 0x04;
pub const CMD_COMMISSIONING_COMPLETE_RESPONSE_ID: u16 = 0x05;

/// Where a device may be used.
#[derive(Debug, PartialEq, Eq, Clone, Copy, Structural)]
pub enum RegLocationType {
    Indoor,
    Outdoor,
    IndoorOutdoor,
}

impl RegLocationType {
    /// The number of the location type on the wire.
    pub open spec fn number(self) -> u8 {
        match self {
            RegLocationType::Indoor => 0,
            RegLocationType::Outdoor => 1,
            RegLocationType::IndoorOutdoor => 2,
        }
    }

    /// The number of the location type on the wire.
    pub fn to_u8(self) -> (n: u8)
        ensures
            n == self.number(),
    {
        match self {
            RegLocationType::Indoor => 0,
            RegLocationType::Outdoor => 1,
            RegLocationType::IndoorOutdoor => 2,
        }
    }
}

/// The bread crumb attribute, which a commissioner may write.
pub fn attr_bread_crumb_new(bread_crumb: u64) -> (r: Result<Attribute, Error>)
    ensures
        r == Ok::<Attribute, Error>(
            Attribute {
                id: ATTR_BREAD_CRUMB,
                value: AttrValue::Uint64(bread_crumb),
                access: crate::data_model::objects::Access { read: true, write: true },
            },
        ),
{
    Attribute::new(ATTR_BREAD_CRUMB, AttrValue::Uint64(bread_crumb), access_rw())
}

/// The attribute that holds the regulatory configuration.
pub fn attr_reg_config_new(reg_config: RegLocationType) -> (r: Result<Attribute, Error>)
    ensures
        r == Ok::<Attribute, Error>(
            Attribute {
                id: ATTR_REG_CONFIG,
                value: AttrValue::Uint8(reg_config.number()),
                access: crate::data_model::objects::Access { read: true, write: false },
            },
        ),
{
    Attribute::new(ATTR_REG_CONFIG, AttrValue::Uint8(reg_config.to_u8()), access_rv())
}

/// The attribute that holds the location capability.
pub fn attr_location_capability_new(reg_config: RegLocationType) -> (r: Result<Attribute, Error>)
    ensures
        r == Ok::<Attribute, Error>(
            Attribute {
                id: ATTR_LOCATION_CAPABILITY,
                value: AttrValue::Uint8(reg_config.number()),
                access: crate::data_model::objects::Access { read: true, write: false },
            },
        ),
{
    Attribute::new(ATTR_LOCATION_CAPABILITY, AttrValue::Uint8(reg_config.to_u8()), access_rv())
}

/// The attribute for the basic commissioning information, which the
/// cluster reads in its own way.
pub fn attr_comm_info_new() -> (r: Result<Attribute, Error>)
    ensures
        r == Ok::<Attribute, Error>(
            Attribute {
                id: ATTR_BASIC_COMMISSIONING_INFO,
                value: AttrValue::Custom,
                access: crate::data_model::objects::Access { read: true, write: false },
            },
        ),
{
    Attribute::new(ATTR_BASIC_COMMISSIONING_INFO, AttrValue::Custom, access_rv())
}

/// The small number under the context tag `tag` of a container: a type
/// mismatch where `data` is no container or the member no small number,
/// `NoTagFound` where there is no such member.
pub open spec fn tagged_u8(data: Elem, tag: u8) -> Result<u8, Error> {
    if !is_container(data.code) {
        Err(Error::TLVTypeMismatch)
    } else {
        match find_ctx(data.children, tag) {
            None => Err(Error::NoTagFound),
            Some(i) => elem_u8(data.children[i]),
        }
    }
}

/// The parameters of the command that arms the fail-safe: the seconds
/// until it expires under the context tag 0, and the bread crumb under the
/// context tag 1.
pub open spec fn armfailsafe_params(data: Elem) -> Result<(u8, u8), Error> {
    match tagged_u8(data, 0) {
        Err(e) => Err(e),
        Ok(expiry_len) => match tagged_u8(data, 1) {
            Err(e) => Err(e),
            Ok(bread_crumb) => Ok((expiry_len, bread_crumb)),
        },
    }
}

fn get_tagged_u8(data: &TLVElement, tag: u8) -> (r: Result<u8, Error>)
    ensures
        r == tagged_u8(data@, tag),
{
    proof {
        lemma_children_view(*data);
    }
    match data.find_tag(tag as u32) {
        Err(e) => Err(e),
        Ok(m) => {
            proof {
                let i = find_ctx(data@.children, tag)->Some_0;
                crate::tlv::parser::lemma_find_ctx(data@.children, tag);
                assert(data@.children[i] == data.children@[i]@);
            }
            m.u8()
        },
    }
}

/// The parameters of the command that arms the fail-safe.
pub fn get_armfailsafe_params(data: &TLVElement) -> (r: Result<(u8, u8), Error>)
    ensures
        r == armfailsafe_params(data@),
{
    let expiry_len: u8 = match get_tagged_u8(data, 0) {
        Ok(v) => v,
        Err(e) => {
            return Err(e);
        },
    };
    let bread_crumb: u8 = match get_tagged_u8(data, 1) {
        Ok(v) => v,
        Err(e) => {
            return Err(e);
        },
    };
    Ok((expiry_len, bread_crumb))
}

/// The path of a response of the cluster: endpoint 0, this cluster, and
/// the command of the response.
pub open spec fn response_path(resp_cmd: u16) -> GenericPath {
    GenericPath {
        endpoint: Some(0),
        cluster: Some(CLUSTER_GENERAL_COMMISSIONING_ID),
        leaf: Some(resp_cmd as u32),
    }
}

/// The data of a response of the cluster: a structure with the status
/// under the context tag 0 and an empty debug text under the context tag
/// 1.
pub open spec fn response_data(status: u8) -> Elem {
    container(
        TagType::Context(1),
        TYPE_STRUCT,
        seq![
            uint_elem(TagType::Context(0), status as u64),
            leaf(TagType::Context(1), TYPE_UTF8L, 0, Seq::empty()),
        ],
    )
}

/// A response of the cluster: an anonymous structure that holds, under the
/// context tag 0, the path of the response and its data.
pub open spec fn comm_response_elem(resp_cmd: u16, status: u8) -> Elem {
    container(
        TagType::Anonymous,
        TYPE_STRUCT,
        seq![
            container(
                TagType::Context(0),
                TYPE_STRUCT,
                seq![
                    cmd_path_elem(TagType::Context(0), response_path(resp_cmd)),
                    response_data(status),
                ],
            ),
        ],
    )
}

/// A response of the cluster is well formed.
pub proof fn lemma_comm_response_wf(resp_cmd: u16, status: u8)
    ensures
        comm_response_elem(resp_cmd, status).wf(),
{
    crate::interaction_model::messages::lemma_path_elem_wf(
        TagType::Context(0),
        response_path(resp_cmd),
        0,
    );
    crate::utils::bytes::lemma_pow256_values();
    let d = response_data(status);
    assert forall|i: int| 0 <= i < d.children.len() implies (#[trigger] d.children[i]).wf() by {}
    assert(d.wf());
    let inner = container(
        TagType::Context(0),
        TYPE_STRUCT,
        seq![cmd_path_elem(TagType::Context(0), response_path(resp_cmd)), response_data(status)],
    );
    assert forall|i: int| 0 <= i < inner.children.len() implies (
    #[trigger] inner.children[i]).wf() by {}
    assert(inner.wf());
    let e = comm_response_elem(resp_cmd, status);
    assert forall|i: int| 0 <= i < e.children.len() implies (#[trigger] e.children[i]).wf() by {}
}

/// A response of the cluster.
pub fn comm_response_element(resp_cmd: u16, status: u8) -> (e: TLVElement)
    ensures
        e@ == comm_response_elem(resp_cmd, status),
{
    let path = GenericPath::new(
        Some(0),
        Some(CLUSTER_GENERAL_COMMISSIONING_ID),
        Some(resp_cmd as u32),
    );
    let mut data: Vec<TLVElement> = Vec::new();
    data.push(TLVElement::new_uint(TagType::Context(0), status as u64));
    data.push(TLVElement::new_string(TagType::Context(1), TYPE_UTF8L, Vec::new()));
    assert(elems_view(data@) =~= seq![
        uint_elem(TagType::Context(0), status as u64),
        leaf(TagType::Context(1), TYPE_UTF8L, 0, Seq::empty()),
    ]);
    let mut inner: Vec<TLVElement> = Vec::new();
    inner.push(cmd_path_element(TagType::Context(0), &path));
    inner.push(TLVElement::new_container(TagType::Context(1), TYPE_STRUCT, data));
    assert(elems_view(inner@) =~= seq![
        cmd_path_elem(TagType::Context(0), response_path(resp_cmd)),
        response_data(status),
    ]);
    let mut outer: Vec<TLVElement> = Vec::new();
    outer.push(TLVElement::new_container(TagType::Context(0), TYPE_STRUCT, inner));
    assert(elems_view(outer@) =~= seq![
        container(
            TagType::Context(0),
            TYPE_STRUCT,
            seq![
                cmd_path_elem(TagType::Context(0), response_path(resp_cmd)),
                response_data(status),
            ],
        ),
    ]);
    TLVElement::new_container(TagType::Anonymous, TYPE_STRUCT, outer)
}

/// The transaction, completed.
pub open spec fn completed(t: Transaction) -> Transaction {
    Transaction { state: TransactionState::Complete, ..t }
}

/// An effect that is a refusal: a status, no response, the transaction as
/// it was.
pub open spec fn refusal(status: IMStatusCode, trans: Transaction) -> CommandEffect {
    CommandEffect { result: Err(status), response: Seq::empty(), trans }
}

/// An effect that is a response of the cluster: success, the response, the
/// transaction completed.
pub open spec fn responded(resp_cmd: u16, status: u8, trans: Transaction) -> CommandEffect {
    CommandEffect {
        result: Ok(()),
        response: elem_bytes(comm_response_elem(resp_cmd, status)),
        trans: completed(trans),
    }
}

/// What arming the fail-safe does: an invalid command where the
/// parameters cannot be read; busy where the fail-safe is armed by another
/// session; else the response with status 0.
pub open spec fn arm_effect(failsafe: FailSafe, data: Elem, trans: Transaction) -> CommandEffect {
    match armfailsafe_params(data) {
        Err(_) => refusal(IMStatusCode::InvalidCommand, trans),
        Ok((expiry_len, _)) => match armed_by(failsafe, expiry_len, trans.session_mode) {
            Err(_) => refusal(IMStatusCode::Busy, trans),
            Ok(_) => responded(CMD_ARMFAILSAFE_RESPONSE_ID, 0, trans),
        },
    }
}

/// The fail-safe after the command that arms it.
pub open spec fn arm_failsafe_after(failsafe: FailSafe, data: Elem, trans: Transaction)
    -> FailSafe {
    match armfailsafe_params(data) {
        Err(_) => failsafe,
        Ok((expiry_len, _)) => match armed_by(failsafe, expiry_len, trans.session_mode) {
            Err(_) => failsafe,
            Ok(f) => f,
        },
    }
}

/// Whether the data of the command that sets the regulatory configuration
/// holds a country code: a string under the context tag 1.
pub open spec fn has_country_code(data: Elem) -> bool {
    is_container(data.code) && match find_ctx(data.children, 1) {
        None => false,
        Some(i) => is_string(data.children[i].code),
    }
}

/// What setting the regulatory configuration does: an invalid command
/// where there is no country code; else the response with status 0.
pub open spec fn set_reg_effect(data: Elem, trans: Transaction) -> CommandEffect {
    if has_country_code(data) {
        responded(CMD_SETREGULATORYCONFIG_RESPONSE_ID, 0, trans)
    } else {
        refusal(IMStatusCode::InvalidCommand, trans)
    }
}

/// The status of the completion of commissioning: invalid authentication
/// where the session has no fabric or the fail-safe cannot be disarmed by
/// it; else 0.
pub open spec fn complete_status(failsafe: FailSafe, trans: Transaction) -> u8 {
    if trans.local_fabric_idx is None || disarmed_by(failsafe, trans.session_mode) is Err {
        2
    } else {
        0
    }
}

/// The fail-safe after the completion of commissioning: disarmed where the
/// session may disarm it.
pub open spec fn complete_failsafe_after(failsafe: FailSafe, trans: Transaction) -> FailSafe {
    match disarmed_by(failsafe, trans.session_mode) {
        Ok(f) => f,
        Err(_) => failsafe,
    }
}

/// What the cluster does with a command: the commands 0, 2 and 4 arm the
/// fail-safe, set the regulatory configuration and complete commissioning;
/// any other is unsupported.
pub open spec fn gen_comm_effect(failsafe: FailSafe, cmd: CmdPath, data: Elem, trans: Transaction)
    -> CommandEffect {
    if cmd.path.leaf == Some(CMD_ARMFAILSAFE_ID as u32) {
        arm_effect(failsafe, data, trans)
    } else if cmd.path.leaf == Some(CMD_SETREGULATORYCONFIG_ID as u32) {
        set_reg_effect(data, trans)
    } else if cmd.path.leaf == Some(CMD_COMMISSIONING_COMPLETE_ID as u32) {
        responded(
            CMD_COMMISSIONING_COMPLETE_RESPONSE_ID,
            complete_status(failsafe, trans),
            trans,
        )
    } else {
        refusal(IMStatusCode::UnsupportedCommand, trans)
    }
}

/// The structure that the basic commissioning information is read as: the
/// seconds of the fail-safe under the context tag 0.
pub open spec fn comm_info_elem(tag: TagType, expiry_len: u16) -> Elem {
    container(tag, TYPE_STRUCT, seq![uint_elem(TagType::Context(0), expiry_len as u64)])
}

/// What reading an attribute of the cluster writes: the basic
/// commissioning information in its own form; for the other three
/// attributes their value; `Invalid` for any other identifier.
pub open spec fn gen_comm_attr_encoding(
    base: ClusterModel,
    expiry_len: u16,
    tag: TagType,
    attr_id: u16,
) -> Result<Seq<u8>, Error> {
    if attr_id > ATTR_LOCATION_CAPABILITY {
        Err(Error::Invalid)
    } else if attr_id == ATTR_BASIC_COMMISSIONING_INFO {
        Ok(elem_bytes(comm_info_elem(tag, expiry_len)))
    } else {
        base_attr_encoding(base, tag, attr_id)
    }
}

/// The general commissioning cluster.
pub struct GenCommCluster {
    pub expiry_len: u16,
    pub failsafe: FailSafe,
    pub base: Cluster,
}

/// The attributes of the cluster when it is made.
pub open spec fn gen_comm_attributes() -> Seq<Attribute> {
    seq![
        Attribute {
            id: ATTR_BREAD_CRUMB,
            value: AttrValue::Uint64(0),
            access: crate::data_model::objects::Access { read: true, write: true },
        },
        Attribute {
            id: ATTR_BASIC_COMMISSIONING_INFO,
            value: AttrValue::Custom,
            access: crate::data_model::objects::Access { read: true, write: false },
        },
        Attribute {
            id: ATTR_REG_CONFIG,
            value: AttrValue::Uint8(2),
            access: crate::data_model::objects::Access { read: true, write: false },
        },
        Attribute {
            id: ATTR_LOCATION_CAPABILITY,
            value: AttrValue::Uint8(2),
            access: crate::data_model::objects::Access { read: true, write: false },
        },
    ]
}

impl GenCommCluster {
    /// The cluster as a node starts with it: a fail-safe of 120 seconds
    /// that is idle, a bread crumb of 0, and indoor and outdoor use.
    pub fn new() -> (r: Result<GenCommCluster, Error>)
        ensures
            r is Ok,
            r->Ok_0.expiry_len == 120,
            r->Ok_0.failsafe == (FailSafe {
                state: crate::data_model::sdm::failsafe::FailSafeState::Idle,
            }),
            r->Ok_0.base@ == (ClusterModel {
                id: CLUSTER_GENERAL_COMMISSIONING_ID,
                attributes: gen_comm_attributes(),
                data_ver: 0,
            }),
            r->Ok_0.base.wf(),
    {
        let mut attributes: Vec<Attribute> = Vec::new();
        match attr_bread_crumb_new(0) {
            Ok(a) => {
                attributes.push(a);
            },
            Err(e) => {
                return Err(e);
            },
        }
        match attr_comm_info_new() {
            Ok(a) => {
                attributes.push(a);
            },
            Err(e) => {
                return Err(e);
            },
        }
        match attr_reg_config_new(RegLocationType::IndoorOutdoor) {
            Ok(a) => {
                attributes.push(a);
            },
            Err(e) => {
                return Err(e);
            },
        }
        match attr_location_capability_new(RegLocationType::IndoorOutdoor) {
            Ok(a) => {
                attributes.push(a);
            },
            Err(e) => {
                return Err(e);
            },
        }
        assert(attributes@ =~= gen_comm_attributes());
        Ok(
            GenCommCluster {
                expiry_len: 120,
                failsafe: FailSafe::new(),
                base: Cluster { id: CLUSTER_GENERAL_COMMISSIONING_ID, attributes, data_ver: 0 },
            },
        )
    }

    /// The fail-safe, as it stands.
    pub fn failsafe(&self) -> (f: FailSafe)
        ensures
            f == self.failsafe,
    {
        self.failsafe
    }

    /// Arms the fail-safe for the session of the transaction and answers
    /// with the response of the command.
    pub fn handle_command_armfailsafe(
        &mut self,
        cmd_req: &CommandReq<'_>,
        trans: &mut Transaction,
        resp: &mut TLVWriter,
    ) -> (r: Result<(), IMStatusCode>)
        ensures
            final(self).base == old(self).base,
            final(self).expiry_len == old(self).expiry_len,
            final(self).failsafe == arm_failsafe_after(
                old(self).failsafe,
                cmd_req.data@,
                *old(trans),
            ),
            final(resp).capacity() == old(resp).capacity(),
            r == arm_effect(old(self).failsafe, cmd_req.data@, *old(trans)).result,
            final(resp)@ == emit_if_fits(
                old(resp)@,
                old(resp).capacity(),
                arm_effect(old(self).failsafe, cmd_req.data@, *old(trans)).response,
            ),
            *final(trans) == arm_effect(old(self).failsafe, cmd_req.data@, *old(trans)).trans,
    {
        proof {
            assert(resp@ + Seq::<u8>::empty() =~= resp@);
        }
        let (expiry_len, _) = match get_armfailsafe_params(cmd_req.data) {
            Ok(p) => p,
            Err(_) => {
                return Err(IMStatusCode::InvalidCommand);
            },
        };
        if self.failsafe.arm(expiry_len, trans.session_mode).is_err() {
            return Err(IMStatusCode::Busy);
        }
        let invoke_resp = comm_response_element(
            CMD_ARMFAILSAFE_RESPONSE_ID,
            CommissioningError::NoError.to_u8(),
        );
        proof {
            lemma_comm_response_wf(CMD_ARMFAILSAFE_RESPONSE_ID, 0);
        }
        let _ = resp.element(&invoke_resp);
        trans.complete();
        Ok(())
    }

    /// Takes the regulatory configuration, which must hold a country code,
    /// and answers with the response of the command.
    pub fn handle_command_setregulatoryconfig(
        &mut self,
        cmd_req: &CommandReq<'_>,
        trans: &mut Transaction,
        resp: &mut TLVWriter,
    ) -> (r: Result<(), IMStatusCode>)
        ensures
            *final(self) == *old(self),
            final(resp).capacity() == old(resp).capacity(),
            r == set_reg_effect(cmd_req.data@, *old(trans)).result,
            final(resp)@ == emit_if_fits(
                old(resp)@,
                old(resp).capacity(),
                set_reg_effect(cmd_req.data@, *old(trans)).response,
            ),
            *final(trans) == set_reg_effect(cmd_req.data@, *old(trans)).trans,
    {
        proof {
            assert(resp@ + Seq::<u8>::empty() =~= resp@);
            lemma_children_view(*cmd_req.data);
        }
        let member = match cmd_req.data.find_tag(1) {
            Ok(m) => m,
            Err(_) => {
                return Err(IMStatusCode::InvalidCommand);
            },
        };
        proof {
            let i = find_ctx(cmd_req.data@.children, 1)->Some_0;
            crate::tlv::parser::lemma_find_ctx(cmd_req.data@.children, 1);
            assert(cmd_req.data@.children[i] == cmd_req.data.children@[i]@);
        }
        match member.slice() {
            Ok(_) => {},
            Err(_) => {
                return Err(IMStatusCode::InvalidCommand);
            },
        }
        let invoke_resp = comm_response_element(CMD_SETREGULATORYCONFIG_RESPONSE_ID, 0);
        proof {
            lemma_comm_response_wf(CMD_SETREGULATORYCONFIG_RESPONSE_ID, 0);
        }
        let _ = resp.element(&invoke_resp);
        trans.complete();
        Ok(())
    }

    /// Completes commissioning: disarms the fail-safe where the session
    /// may, and answers with the response of the command, whose status
    /// says whether the session was entitled.
    pub fn handle_command_commissioningcomplete(
        &mut self,
        cmd_req: &CommandReq<'_>,
        trans: &mut Transaction,
        resp: &mut TLVWriter,
    ) -> (r: Result<(), IMStatusCode>)
        ensures
            final(self).base == old(self).base,
            final(self).expiry_len == old(self).expiry_len,
            final(self).failsafe == complete_failsafe_after(old(self).failsafe, *old(trans)),
            final(resp).capacity() == old(resp).capacity(),
            r == Ok::<(), IMStatusCode>(()),
            final(resp)@ == emit_if_fits(
                old(resp)@,
                old(resp).capacity(),
                elem_bytes(
                    comm_response_elem(
                        CMD_COMMISSIONING_COMPLETE_RESPONSE_ID,
                        complete_status(old(self).failsafe, *old(trans)),
                    ),
                ),
            ),
            *final(trans) == completed(*old(trans)),
    {
        let mut status: u8 = CommissioningError::NoError.to_u8();
        // only a session of a fabric can complete commissioning
        if trans.local_fabric_idx.is_none() {
            status = CommissioningError::ErrInvalidAuth.to_u8();
        }
        // the credentials must have been added, and for the fabric of this session
        if self.failsafe.disarm(trans.session_mode).is_err() {
            status = CommissioningError::ErrInvalidAuth.to_u8();
        }
        let invoke_resp = comm_response_element(CMD_COMMISSIONING_COMPLETE_RESPONSE_ID, status);
        proof {
            lemma_comm_response_wf(CMD_COMMISSIONING_COMPLETE_RESPONSE_ID, status);
        }
        let _ = resp.element(&invoke_resp);
        trans.complete();
        Ok(())
    }
}

impl ClusterType for GenCommCluster {
    open spec fn base_model(&self) -> ClusterModel {
        self.base@
    }

    open spec fn attr_encoding(&self, tag: TagType, attr_id: u16) -> Result<Seq<u8>, Error> {
        gen_comm_attr_encoding(self.base@, self.expiry_len, tag, attr_id)
    }

    open spec fn command_effect(&self, cmd: CmdPath, data: Elem, trans: Transaction)
        -> CommandEffect {
        gen_comm_effect(self.failsafe, cmd, data, trans)
    }

    open spec fn write_status(&self, data: Elem, attr_id: u16) -> Result<(), IMStatusCode> {
        match write_check(self.base@, attr_id, data) {
            Ok(_) => Ok(()),
            Err(s) => Err(s),
        }
    }

    fn base(&self) -> (c: &Cluster) {
        &self.base
    }

    fn read_attribute(&self, tag: TagType, tw: &mut TLVWriter, attr_id: u16) -> (r: Result<
        (),
        Error,
    >) {
        if attr_id > ATTR_LOCATION_CAPABILITY {
            assert(tw@.subrange(0, tw@.len() as int) =~= tw@);
            return Err(Error::Invalid);
        }
        if attr_id == ATTR_BASIC_COMMISSIONING_INFO {
            let mut members: Vec<TLVElement> = Vec::new();
            members.push(TLVElement::new_uint(TagType::Context(0), self.expiry_len as u64));
            assert(elems_view(members@) =~= seq![
                uint_elem(TagType::Context(0), self.expiry_len as u64),
            ]);
            let e = TLVElement::new_container(tag, TYPE_STRUCT, members);
            proof {
                crate::utils::bytes::lemma_pow256_values();
                let m = comm_info_elem(tag, self.expiry_len);
                assert forall|i: int| 0 <= i < m.children.len() implies (
                #[trigger] m.children[i]).wf() by {}
            }
            tw.put_element(&e)
        } else {
            self.base.read_attribute(tag, tw, attr_id)
        }
    }

    fn write_attribute(&mut self, data: &TLVElement, attr_id: u16) -> (r: Result<
        (),
        IMStatusCode,
    >) {
        proof {
            if write_check(self.base@, attr_id, data@) is Ok {
                law_write_bumps_data_version(self.base@, attr_id, data@);
            }
        }
        match self.base.write_attribute(data, attr_id) {
            Ok(()) => Ok(()),
            Err(s) => Err(s),
        }
    }

    fn handle_command(
        &mut self,
        req: &CommandReq<'_>,
        trans: &mut Transaction,
        resp: &mut TLVWriter,
    ) -> (r: Result<(), IMStatusCode>) {
        match req.cmd.path.leaf {
            Some(0) => self.handle_command_armfailsafe(req, trans, resp),
            Some(2) => self.handle_command_setregulatoryconfig(req, trans, resp),
            Some(4) => self.handle_command_commissioningcomplete(req, trans, resp),
            _ => {
                assert(resp@ + Seq::<u8>::empty() =~= resp@);
                Err(IMStatusCode::UnsupportedCommand)
            },
        }
    }
}

} // verus!
