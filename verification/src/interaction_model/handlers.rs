//! The three requests of the interaction model and the responses that
//! answer them.

use vstd::prelude::*;
use crate::data_model::dispatch::{
    cmd_path_state, consume_read_out, node_commanded, w_put, writes_done, CmdState, DataModel,
    WOut,
};
use crate::data_model::node::Node;
use crate::data_model::objects::{ClusterType, CmdPath, Transaction, TransactionState};
use crate::error::Error;
use crate::interaction_model::requests::{
    inv_req_of_elem, read_req_of_elem, write_req_of_elem, InvReq, InvReqModel, PathDataModel,
    ReadReq, ReadReqModel, WriteReq, WriteReqModel,
};
use crate::interaction_model::status::OpCode;
use crate::tlv::model::{
    elem_bytes, header_bytes, parse_elem, TagType, END_OF_CONTAINER, TYPE_ARRAY, TYPE_STRUCT,
};
use crate::tlv::parser::get_root_node_struct;
use crate::tlv::writer::{bool_elem, TLVWriter};

verus! {

/// Whether a response is to be sent.
#[derive(Debug, PartialEq, Eq, Clone, Copy, Structural)]
pub enum ResponseRequired {
    No,
    Yes,
}

/// A message to send: its protocol, its opcode and its payload.
pub struct Packet {
    pub proto_id: u16,
    pub proto_opcode: u8,
    pub tw: TLVWriter,
}

impl Packet {
    /// A message without payload, for a payload of at most `cap` bytes.
    pub fn new(cap: usize) -> (p: Packet)
        ensures
            p.proto_id == 0,
            p.proto_opcode == 0,
            p.tw@ == Seq::<u8>::empty(),
            p.tw.capacity() == cap,
    {
        Packet {
            proto_id: 0,
            proto_opcode: 0,
            tw: TLVWriter::new(crate::utils::writebuf::WriteBuf::new(cap)),
        }
    }

    /// Sets the opcode.
    pub fn set_proto_opcode(&mut self, opcode: u8)
        ensures
            final(self).proto_opcode == opcode,
            final(self).proto_id == old(self).proto_id,
            final(self).tw == old(self).tw,
    {
        self.proto_opcode = opcode;
    }

    /// Sets the protocol.
    pub fn set_proto_id(&mut self, proto_id: u16)
        ensures
            final(self).proto_id == proto_id,
            final(self).proto_opcode == old(self).proto_opcode,
            final(self).tw == old(self).tw,
    {
        self.proto_id = proto_id;
    }

    /// The payload written so far.
    pub fn as_slice(&self) -> (s: &[u8])
        ensures
            s@ == self.tw@,
    {
        self.tw.as_slice()
    }
}

/// The interaction model over the data model of a node.
pub struct InteractionModel<C: ClusterType> {
    pub consumer: DataModel<C>,
}

/// The read request that a message is read as.
pub open spec fn read_request_of(b: Seq<u8>) -> Result<ReadReqModel, Error> {
    match parse_elem(b) {
        None => Err(Error::InvalidData),
        Some((e, _)) => read_req_of_elem(e),
    }
}

/// The write request that a message is read as.
pub open spec fn write_request_of(b: Seq<u8>) -> Result<WriteReqModel, Error> {
    match parse_elem(b) {
        None => Err(Error::InvalidData),
        Some((e, _)) => write_req_of_elem(e),
    }
}

/// The invoke request that a message is read as.
pub open spec fn invoke_request_of(b: Seq<u8>) -> Result<InvReqModel, Error> {
    match parse_elem(b) {
        None => Err(Error::InvalidData),
        Some((e, _)) => inv_req_of_elem(e),
    }
}

/// The response to a read request: an anonymous structure that holds the
/// reports, then the flag that suppresses a response to the response, true,
/// under the context tag 4.
pub open spec fn read_response<C: ClusterType>(
    node: Node<C>,
    req: ReadReqModel,
    before: Seq<u8>,
    cap: nat,
) -> WOut {
    w_put(
        w_put(
            consume_read_out(
                node,
                req.attr_requests,
                w_put(
                    WOut { r: Ok(()), out: before },
                    cap,
                    header_bytes(TagType::Anonymous, TYPE_STRUCT),
                ),
                cap,
            ),
            cap,
            elem_bytes(bool_elem(TagType::Context(4), true)),
        ),
        cap,
        seq![END_OF_CONTAINER],
    )
}

/// The transaction, completed.
pub open spec fn completed(t: Transaction) -> Transaction {
    Transaction { state: TransactionState::Complete, ..t }
}

impl<C: ClusterType> InteractionModel<C> {
    /// The interaction model over a data model.
    pub fn new(consumer: DataModel<C>) -> (im: InteractionModel<C>)
        ensures
            im.consumer == consumer,
    {
        InteractionModel { consumer }
    }

    /// Answers a read request with report data. A request that cannot be
    /// read fails with its error and writes nothing. Fabric filtering and
    /// data version filters are received and ignored. Where the response
    /// is written whole, the transaction is completed; where the space
    /// runs out, the request fails with `NoSpace`.
    pub fn handle_read_req(
        &mut self,
        trans: &mut Transaction,
        rx_buf: &[u8],
        proto_tx: &mut Packet,
    ) -> (r: Result<ResponseRequired, Error>)
        requires
            old(self).consumer.node.wf(),
        ensures
            final(self).consumer.node == old(self).consumer.node,
            final(proto_tx).proto_opcode == OpCode::ReportData.number(),
            final(proto_tx).tw.capacity() == old(proto_tx).tw.capacity(),
            match read_request_of(rx_buf@) {
                Err(e) => r == Err::<ResponseRequired, Error>(e) && final(proto_tx).tw@ == old(
                    proto_tx,
                ).tw@ && *final(trans) == *old(trans),
                Ok(req) => {
                    let w = read_response(
                        old(self).consumer.node,
                        req,
                        old(proto_tx).tw@,
                        old(proto_tx).tw.capacity(),
                    );
                    &&& final(proto_tx).tw@ == w.out
                    &&& match w.r {
                        Ok(_) => r == Ok::<ResponseRequired, Error>(ResponseRequired::Yes)
                            && *final(trans) == completed(*old(trans)),
                        Err(e) => r == Err::<ResponseRequired, Error>(e) && *final(trans) == *old(
                            trans,
                        ),
                    }
                },
            },
    {
        proto_tx.set_proto_opcode(OpCode::ReportData.to_u8());
        let root = match get_root_node_struct(rx_buf) {
            Ok(e) => e,
            Err(x) => {
                return Err(x);
            },
        };
        let read_req = match ReadReq::from_tlv(&root) {
            Ok(q) => q,
            Err(x) => {
                return Err(x);
            },
        };
        match proto_tx.tw.start_struct(TagType::Anonymous) {
            Ok(()) => {},
            Err(x) => {
                return Err(x);
            },
        }
        match self.consumer.consume_read_attr(&read_req, &mut proto_tx.tw) {
            Ok(()) => {},
            Err(x) => {
                return Err(x);
            },
        }
        match proto_tx.tw.bool(TagType::Context(4), true) {
            Ok(()) => {},
            Err(x) => {
                return Err(x);
            },
        }
        match proto_tx.tw.end_container() {
            Ok(()) => {},
            Err(x) => {
                return Err(x);
            },
        }
        trans.complete();
        Ok(ResponseRequired::Yes)
    }
}

} // verus!

verus! {

/// How a write request is answered: an anonymous structure that holds the
/// array of statuses. Where a piece does not fit the request fails with
/// `NoSpace`; writes that were made before that stay made.
pub open spec fn write_answered<C: ClusterType>(
    a: Node<C>,
    b: Node<C>,
    items: Seq<PathDataModel>,
    before: Seq<u8>,
    cap: nat,
    r: Result<(), Error>,
    after: Seq<u8>,
) -> bool {
    let s1 = w_put(WOut { r: Ok(()), out: before }, cap, header_bytes(TagType::Anonymous, TYPE_STRUCT));
    let hdr = header_bytes(TagType::Context(0), TYPE_ARRAY);
    if s1.r is Err {
        r == s1.r && after == before && b == a
    } else if s1.out.len() + hdr.len() > cap {
        r == Err::<(), Error>(Error::NoSpace) && after == s1.out && b == a
    } else {
        exists|body: Seq<u8>|
            #[trigger] writes_done(a, b, items, s1.out + hdr, body, cap) && (WOut {
                r,
                out: after,
            }) == w_put(
                w_put(WOut { r: Ok(()), out: body }, cap, seq![END_OF_CONTAINER]),
                cap,
                seq![END_OF_CONTAINER],
            )
    }
}

/// One command of a request leads from the node `mid` and the state `st`
/// to the node `b` and the state `st_b`.
pub open spec fn cmd_step_done<C: ClusterType>(
    mid: Node<C>,
    b: Node<C>,
    item: PathDataModel,
    st: CmdState,
    st_b: CmdState,
    cap: nat,
) -> bool {
    &&& mid.wf()
    &&& node_commanded(mid, b, item.path, mid.endpoints@.len() as int, 0)
    &&& st_b == cmd_path_state(mid, item.path, item.data, st, cap)
}

/// Whether `nodes` and `states` are the nodes and states that a run of
/// commands passes through: each command leads from one to the next.
pub open spec fn cmds_trace<C: ClusterType>(
    nodes: Seq<Node<C>>,
    states: Seq<CmdState>,
    items: Seq<PathDataModel>,
    cap: nat,
) -> bool {
    &&& nodes.len() == items.len() + 1
    &&& states.len() == items.len() + 1
    &&& forall|k: int|
        0 <= k < items.len() ==> cmd_step_done(
            nodes[k],
            nodes[k + 1],
            #[trigger] items[k],
            states[k],
            states[k + 1],
            cap,
        )
}

/// How a node, a response and a transaction stand after the commands of a
/// request were handled, each in its turn, in the order of the request.
pub open spec fn cmds_done<C: ClusterType>(
    a: Node<C>,
    b: Node<C>,
    items: Seq<PathDataModel>,
    st_a: CmdState,
    st_b: CmdState,
    cap: nat,
) -> bool {
    exists|nodes: Seq<Node<C>>, states: Seq<CmdState>|
        #[trigger] cmds_trace(nodes, states, items, cap) && nodes[0] == a && nodes.last() == b
            && states[0] == st_a && states.last() == st_b
}

/// How an invoke request is answered: an anonymous structure that holds
/// the flag that suppresses a response, false, under the context tag 0
/// and, where the request has commands, the array of their responses
/// under the context tag 1. Where a piece does not fit the request fails
/// with `NoSpace`; what the commands did before that stays done.
pub open spec fn invoke_answered<C: ClusterType>(
    a: Node<C>,
    b: Node<C>,
    req: InvReqModel,
    st_a: CmdState,
    cap: nat,
    r: Result<(), Error>,
    st_b: CmdState,
) -> bool {
    let s1 = w_put(
        w_put(WOut { r: Ok(()), out: st_a.out }, cap, header_bytes(TagType::Anonymous, TYPE_STRUCT)),
        cap,
        elem_bytes(bool_elem(TagType::Context(0), false)),
    );
    if s1.r is Err {
        r == s1.r && st_b == (CmdState { out: s1.out, trans: st_a.trans }) && b == a
    } else {
        match req.inv_requests {
            None => b == a && st_b.trans == st_a.trans && (WOut { r, out: st_b.out }) == w_put(
                s1,
                cap,
                seq![END_OF_CONTAINER],
            ),
            Some(items) => {
                let s2 = w_put(s1, cap, header_bytes(TagType::Context(1), TYPE_ARRAY));
                if s2.r is Err {
                    r == s2.r && st_b == (CmdState { out: s2.out, trans: st_a.trans }) && b == a
                } else {
                    exists|mid: CmdState|
                        #[trigger] cmds_done(
                            a,
                            b,
                            items,
                            CmdState { out: s2.out, trans: st_a.trans },
                            mid,
                            cap,
                        ) && st_b.trans == mid.trans && (WOut { r, out: st_b.out }) == w_put(
                            w_put(WOut { r: Ok(()), out: mid.out }, cap, seq![END_OF_CONTAINER]),
                            cap,
                            seq![END_OF_CONTAINER],
                        )
                }
            },
        }
    }
}

impl<C: ClusterType> InteractionModel<C> {
    /// Answers a write request with a write response. A request that
    /// cannot be read fails with its error and changes nothing. Where the
    /// response is written whole, the transaction is completed, and a
    /// response is required unless the request suppresses it.
    pub fn handle_write_req(
        &mut self,
        trans: &mut Transaction,
        rx_buf: &[u8],
        proto_tx: &mut Packet,
    ) -> (r: Result<ResponseRequired, Error>)
        requires
            old(self).consumer.node.wf(),
        ensures
            final(self).consumer.node.wf(),
            final(proto_tx).proto_opcode == OpCode::WriteResponse.number(),
            final(proto_tx).tw.capacity() == old(proto_tx).tw.capacity(),
            match write_request_of(rx_buf@) {
                Err(e) => r == Err::<ResponseRequired, Error>(e) && final(proto_tx).tw@ == old(
                    proto_tx,
                ).tw@ && *final(trans) == *old(trans) && final(self).consumer.node == old(
                    self,
                ).consumer.node,
                Ok(req) => {
                    &&& write_answered(
                        old(self).consumer.node,
                        final(self).consumer.node,
                        req.write_requests,
                        old(proto_tx).tw@,
                        old(proto_tx).tw.capacity(),
                        match r {
                            Ok(_) => Ok(()),
                            Err(e) => Err(e),
                        },
                        final(proto_tx).tw@,
                    )
                    &&& match r {
                        Ok(v) => v == (if req.supress_response == Some(true) {
                            ResponseRequired::No
                        } else {
                            ResponseRequired::Yes
                        }) && *final(trans) == completed(*old(trans)),
                        Err(_) => *final(trans) == *old(trans),
                    }
                },
            },
    {
        proto_tx.set_proto_opcode(OpCode::WriteResponse.to_u8());
        let root = match get_root_node_struct(rx_buf) {
            Ok(e) => e,
            Err(x) => {
                return Err(x);
            },
        };
        let write_req = match WriteReq::from_tlv(&root) {
            Ok(q) => q,
            Err(x) => {
                return Err(x);
            },
        };
        let supress_response: bool = match write_req.supress_response {
            Some(b) => b,
            None => false,
        };
        match proto_tx.tw.start_struct(TagType::Anonymous) {
            Ok(()) => {},
            Err(x) => {
                return Err(x);
            },
        }
        match self.consumer.consume_write_attr(&write_req, &mut proto_tx.tw) {
            Ok(()) => {},
            Err(x) => {
                return Err(x);
            },
        }
        match proto_tx.tw.end_container() {
            Ok(()) => {},
            Err(x) => {
                return Err(x);
            },
        }
        trans.complete();
        if supress_response {
            Ok(ResponseRequired::No)
        } else {
            Ok(ResponseRequired::Yes)
        }
    }

    /// Answers an invoke request with an invoke response: hands each
    /// command to the data model, in the order of the request. A request
    /// that cannot be read fails with its error and changes nothing.
    pub fn handle_invoke_req(
        &mut self,
        trans: &mut Transaction,
        rx_buf: &[u8],
        proto_tx: &mut Packet,
    ) -> (r: Result<ResponseRequired, Error>)
        requires
            old(self).consumer.node.wf(),
        ensures
            final(self).consumer.node.wf(),
            final(proto_tx).proto_opcode == OpCode::InvokeResponse.number(),
            final(proto_tx).tw.capacity() == old(proto_tx).tw.capacity(),
            match invoke_request_of(rx_buf@) {
                Err(e) => r == Err::<ResponseRequired, Error>(e) && final(proto_tx).tw@ == old(
                    proto_tx,
                ).tw@ && *final(trans) == *old(trans) && final(self).consumer.node == old(
                    self,
                ).consumer.node,
                Ok(req) => {
                    &&& invoke_answered(
                        old(self).consumer.node,
                        final(self).consumer.node,
                        req,
                        CmdState { out: old(proto_tx).tw@, trans: *old(trans) },
                        old(proto_tx).tw.capacity(),
                        match r {
                            Ok(_) => Ok(()),
                            Err(e) => Err(e),
                        },
                        CmdState { out: final(proto_tx).tw@, trans: *final(trans) },
                    )
                    &&& r is Ok ==> r == Ok::<ResponseRequired, Error>(ResponseRequired::Yes)
                },
            },
    {
        proto_tx.set_proto_opcode(OpCode::InvokeResponse.to_u8());
        let root = match get_root_node_struct(rx_buf) {
            Ok(e) => e,
            Err(x) => {
                return Err(x);
            },
        };
        let inv_req = match InvReq::from_tlv(&root) {
            Ok(q) => q,
            Err(x) => {
                return Err(x);
            },
        };
        let ghost node0 = self.consumer.node;
        let ghost cap = proto_tx.tw.capacity();
        let ghost trans0 = *trans;
        match proto_tx.tw.start_struct(TagType::Anonymous) {
            Ok(()) => {},
            Err(x) => {
                return Err(x);
            },
        }
        match proto_tx.tw.bool(TagType::Context(0), false) {
            Ok(()) => {},
            Err(x) => {
                return Err(x);
            },
        }
        match &inv_req.inv_requests {
            None => {},
            Some(inv_requests) => {
                match proto_tx.tw.start_array(TagType::Context(1)) {
                    Ok(()) => {},
                    Err(x) => {
                        return Err(x);
                    },
                }
                let ghost items = inv_req@.inv_requests->Some_0;
                let ghost st0 = CmdState { out: proto_tx.tw@, trans: *trans };
                let ghost mut nodes: Seq<Node<C>> = seq![node0];
                let ghost mut states: Seq<CmdState> = seq![st0];
                let mut i: usize = 0;
                while i < inv_requests.len()
                    invariant
                        i <= inv_requests.len(),
                        items == crate::interaction_model::requests::items_view(inv_requests@),
                        self.consumer.node.wf(),
                        proto_tx.tw.capacity() == cap,
                        proto_tx.proto_opcode == OpCode::InvokeResponse.number(),
                        nodes.len() == i + 1,
                        states.len() == i + 1,
                        nodes[0] == node0,
                        states[0] == st0,
                        nodes[i as int] == self.consumer.node,
                        states[i as int] == (CmdState { out: proto_tx.tw@, trans: *trans }),
                        forall|k: int|
                            0 <= k < i ==> cmd_step_done(
                                #[trigger] nodes[k],
                                nodes[k + 1],
                                items[k],
                                states[k],
                                states[k + 1],
                                cap,
                            ),
                    decreases inv_requests.len() - i,
                {
                    let item = &inv_requests[i];
                    assert(items[i as int] == item@);
                    let cmd = CmdPath { path: item.path };
                    let _ = self.consumer.consume_invoke_cmd(
                        &cmd,
                        item.data,
                        trans,
                        &mut proto_tx.tw,
                    );
                    proof {
                        let prev_nodes = nodes;
                        let prev_states = states;
                        nodes = nodes.push(self.consumer.node);
                        states = states.push(CmdState { out: proto_tx.tw@, trans: *trans });
                        assert forall|k: int| 0 <= k < i + 1 implies cmd_step_done(
                            #[trigger] nodes[k],
                            nodes[k + 1],
                            items[k],
                            states[k],
                            states[k + 1],
                            cap,
                        ) by {
                            if k < i {
                                assert(nodes[k] == prev_nodes[k] && nodes[k + 1] == prev_nodes[k
                                    + 1]);
                                assert(states[k] == prev_states[k] && states[k + 1]
                                    == prev_states[k + 1]);
                                assert(cmd_step_done(
                                    prev_nodes[k],
                                    prev_nodes[k + 1],
                                    items[k],
                                    prev_states[k],
                                    prev_states[k + 1],
                                    cap,
                                ));
                            } else {
                                assert(nodes[k] == prev_nodes[k]);
                                assert(states[k] == prev_states[k]);
                            }
                        }
                    }
                    i = i + 1;
                }
                let ghost mid = CmdState { out: proto_tx.tw@, trans: *trans };
                proof {
                    assert(cmds_trace(nodes, states, items, cap));
                    assert(nodes.last() == self.consumer.node && states.last() == mid);
                    assert(cmds_done(node0, self.consumer.node, items, st0, mid, cap));
                }
                match proto_tx.tw.end_container() {
                    Ok(()) => {},
                    Err(x) => {
                        return Err(x);
                    },
                }
            },
        }
        match proto_tx.tw.end_container() {
            Ok(()) => {},
            Err(x) => {
                return Err(x);
            },
        }
        Ok(ResponseRequired::Yes)
    }
}

} // verus!
