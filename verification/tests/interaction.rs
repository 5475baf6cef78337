use matter::data_model::dispatch::{
    handle_read_attr_data, handle_write_attr_data, put_attr_status, DataModel,
};
use matter::data_model::node::Node;
use matter::data_model::objects::{
    access_rv, access_rw, AttrValue, Attribute, Cluster, ClusterType, CmdPath, CommandReq,
    SessionMode, Transaction, TransactionState,
};
use matter::data_model::sdm::failsafe::{FailSafe, FailSafeState, NocState};
use matter::data_model::sdm::general_commissioning::{
    attr_bread_crumb_new, attr_comm_info_new, attr_location_capability_new, attr_reg_config_new,
    get_armfailsafe_params, GenCommCluster, RegLocationType,
};
use matter::error::Error;
use matter::fabric::{Fabric, FabricMgr};
use matter::interaction_model::handlers::{InteractionModel, Packet, ResponseRequired};
use matter::interaction_model::messages::{attr_path_element, AttrDataType, GenericPath};
use matter::interaction_model::requests::{attr_path_from, InvReq, ReadReq, WriteReq};
use matter::interaction_model::status::{status_of_error, IMStatusCode, OpCode};
use matter::tlv::model::TagType;
use matter::tlv::parser::{get_root_node, get_root_node_struct, TLVElement};
use matter::tlv::writer::TLVWriter;
use matter::utils::writebuf::WriteBuf;

fn cluster(id: u32, attrs: &[(u16, AttrValue, bool)]) -> Cluster {
    let mut c = Cluster::new(id).unwrap();
    for (a, v, w) in attrs {
        let access = if *w { access_rw() } else { access_rv() };
        c.add_attribute(Attribute::new(*a, *v, access).unwrap()).unwrap();
    }
    c
}

fn node() -> Node<Cluster> {
    let mut node: Node<Cluster> = Node::new().unwrap();
    node.add_endpoint().unwrap();
    node.add_endpoint().unwrap();
    node.endpoints[0]
        .add_cluster(cluster(0x50, &[(1, AttrValue::Uint8(0x11), true), (0, AttrValue::Bool(true), false)]))
        .unwrap();
    node.endpoints[0].add_cluster(cluster(0x40, &[(0, AttrValue::Uint16(0x4000), true)])).unwrap();
    node.endpoints[1]
        .add_cluster(cluster(0x50, &[(1, AttrValue::Uint8(0x22), true), (2, AttrValue::Custom, false)]))
        .unwrap();
    node
}

fn path(e: Option<u16>, c: Option<u32>, a: Option<u32>) -> GenericPath {
    GenericPath::new(e, c, a)
}

fn read_request(paths: &[GenericPath]) -> Vec<u8> {
    let mut tw = TLVWriter::new(WriteBuf::new(400));
    tw.start_struct(TagType::Anonymous).unwrap();
    tw.start_array(TagType::Context(0)).unwrap();
    for p in paths {
        tw.element(&attr_path_element(TagType::Anonymous, p)).unwrap();
    }
    tw.end_container().unwrap();
    tw.bool(TagType::Context(3), false).unwrap();
    tw.end_container().unwrap();
    tw.as_slice().to_vec()
}

#[derive(Debug, PartialEq)]
enum Report {
    Data(u32, GenericPath, u64),
    Flag(u32, GenericPath, bool),
    Status(GenericPath, u16),
}

fn read(paths: &[GenericPath]) -> Vec<Report> {
    let mut im = InteractionModel::new(DataModel::new(node()).unwrap());
    let mut trans = Transaction::new(SessionMode::PlainText, None);
    let mut tx = Packet::new(1000);
    let r = im.handle_read_req(&mut trans, &read_request(paths), &mut tx);
    assert_eq!(r, Ok(ResponseRequired::Yes));
    assert!(trans.is_complete());
    assert_eq!(tx.proto_opcode, OpCode::ReportData.to_u8());
    let root = get_root_node_struct(tx.as_slice()).unwrap();
    assert_eq!(root.find_tag(4).unwrap().bool(), Ok(true));
    let mut out = vec![];
    for report in root.find_tag(1).unwrap().confirm_array().unwrap() {
        let inner = &report.confirm_struct().unwrap()[0];
        if inner.check_ctx_tag(1) {
            let ver = inner.find_tag(0).unwrap().u32().unwrap();
            let p = attr_path_from(inner.find_tag(1).unwrap()).unwrap();
            let data = inner.find_tag(2).unwrap();
            match data.bool() {
                Ok(b) => out.push(Report::Flag(ver, p, b)),
                Err(_) => out.push(Report::Data(ver, p, data.u64().unwrap())),
            }
        } else {
            assert!(inner.check_ctx_tag(0));
            let p = attr_path_from(inner.find_tag(0).unwrap()).unwrap();
            let status = inner.find_tag(1).unwrap().find_tag(0).unwrap().u16().unwrap();
            out.push(Report::Status(p, status));
        }
    }
    out
}

#[test]
fn reads_answer_each_path_in_the_order_of_the_request() {
    let a = path(Some(1), Some(0x50), Some(1));
    let b = path(Some(0), Some(0x40), Some(0));
    let c = path(Some(0), Some(0x50), Some(0));
    assert_eq!(
        read(&[a, b, c]),
        vec![Report::Data(0, a, 0x22), Report::Data(0, b, 0x4000), Report::Flag(0, c, true)]
    );
    assert_eq!(
        read(&[c, b, a]),
        vec![Report::Flag(0, c, true), Report::Data(0, b, 0x4000), Report::Data(0, a, 0x22)]
    );
    assert_eq!(read(&[]), vec![]);
}

#[test]
fn reads_without_wildcards_report_what_is_missing() {
    let no_endpoint = path(Some(2), Some(0x50), Some(1));
    let no_cluster = path(Some(1), Some(0x40), Some(0));
    let no_attr = path(Some(0), Some(0x40), Some(9));
    let custom = path(Some(1), Some(0x50), Some(2));
    assert_eq!(
        read(&[no_endpoint, no_cluster, no_attr, custom]),
        vec![
            Report::Status(no_endpoint, 0x7f),
            Report::Status(no_cluster, 0xc3),
            Report::Status(no_attr, 0x86),
            Report::Status(custom, 0x01),
        ]
    );
    // an attribute identifier of more than sixteen bits names no attribute
    let big_attr = path(Some(0), Some(0x40), Some(0x1_0000));
    let n = node();
    let mut tw = TLVWriter::new(WriteBuf::new(100));
    DataModel::handle_read_attr_path(&n, &big_attr, &mut tw);
    assert_eq!(
        tw.as_slice(),
        &[
            0x15, 0x35, 0, 0x37, 0, 0x24, 2, 0, 0x24, 3, 0x40, 0x26, 4, 0, 0, 1, 0, 0x18, 0x35, 1, 0x24, 0, 0x86,
            0x24, 1, 0, 0x18, 0x18, 0x18
        ][..]
    );
}

#[test]
fn wildcard_reads_go_in_ascending_order_and_pass_over_errors() {
    // everything: endpoint 0 has the clusters 0x40 and 0x50, endpoint 1 the cluster 0x50
    assert_eq!(
        read(&[path(None, None, None)]),
        vec![
            Report::Data(0, path(Some(0), Some(0x40), Some(0)), 0x4000),
            Report::Flag(0, path(Some(0), Some(0x50), Some(0)), true),
            Report::Data(0, path(Some(0), Some(0x50), Some(1)), 0x11),
            Report::Data(0, path(Some(1), Some(0x50), Some(1)), 0x22),
            // the custom attribute 2 of endpoint 1 cannot be read here and leaves no trace
        ]
    );
    assert_eq!(
        read(&[path(None, Some(0x50), Some(1))]),
        vec![
            Report::Data(0, path(Some(0), Some(0x50), Some(1)), 0x11),
            Report::Data(0, path(Some(1), Some(0x50), Some(1)), 0x22),
        ]
    );
    assert_eq!(read(&[path(Some(1), None, None)]), vec![Report::Data(0, path(Some(1), Some(0x50), Some(1)), 0x22)]);
    assert_eq!(read(&[path(None, Some(0x99), None)]), vec![]);
    assert_eq!(read(&[path(Some(7), None, None)]), vec![]);
}

#[test]
fn a_report_that_does_not_fit_is_taken_back() {
    let n = node();
    let c = &n.endpoints[0].clusters[0];
    let p = path(Some(0), Some(0x40), Some(0));
    let mut tw = TLVWriter::new(WriteBuf::new(100));
    assert_eq!(handle_read_attr_data(c, &mut tw, &p, 0), Ok(()));
    let whole = tw.as_slice().to_vec();
    assert_eq!(
        whole,
        vec![0x15, 0x35, 1, 0x24, 0, 0, 0x37, 1, 0x24, 2, 0, 0x24, 3, 0x40, 0x24, 4, 0, 0x18, 0x25, 2, 0x00, 0x40, 0x18, 0x18]
    );
    for cap in 0..whole.len() {
        let mut tw = TLVWriter::new(WriteBuf::new(cap));
        assert_eq!(handle_read_attr_data(c, &mut tw, &p, 0), Err(IMStatusCode::Failure));
        assert_eq!(tw.as_slice().len(), 0);
    }
    let mut tw = TLVWriter::new(WriteBuf::new(100));
    tw.u8(TagType::Anonymous, 1).unwrap();
    assert_eq!(handle_read_attr_data(c, &mut tw, &p, 5), Err(IMStatusCode::UnsupportedAttribute));
    assert_eq!(tw.as_slice(), &[0x04, 1]);
}

fn write_request(items: &[(GenericPath, u64)], suppress: Option<bool>) -> Vec<u8> {
    let mut tw = TLVWriter::new(WriteBuf::new(400));
    tw.start_struct(TagType::Anonymous).unwrap();
    if let Some(s) = suppress {
        tw.bool(TagType::Context(0), s).unwrap();
    }
    tw.start_array(TagType::Context(2)).unwrap();
    for (p, v) in items {
        tw.start_struct(TagType::Anonymous).unwrap();
        tw.element(&attr_path_element(TagType::Context(1), p)).unwrap();
        tw.u64(TagType::Context(2), *v).unwrap();
        tw.end_container().unwrap();
    }
    tw.end_container().unwrap();
    tw.end_container().unwrap();
    tw.as_slice().to_vec()
}

fn statuses(tx: &Packet) -> Vec<(GenericPath, u16)> {
    let root = get_root_node_struct(tx.as_slice()).unwrap();
    root.find_tag(0)
        .unwrap()
        .confirm_array()
        .unwrap()
        .iter()
        .map(|s| {
            (
                attr_path_from(s.find_tag(0).unwrap()).unwrap(),
                s.find_tag(1).unwrap().find_tag(0).unwrap().u16().unwrap(),
            )
        })
        .collect()
}

#[test]
fn writes_answer_with_statuses_and_raise_the_data_version() {
    let mut im = InteractionModel::new(DataModel::new(node()).unwrap());
    let mut trans = Transaction::new(SessionMode::PlainText, None);
    let mut tx = Packet::new(1000);
    let ok = path(Some(0), Some(0x50), Some(1));
    let read_only = path(Some(0), Some(0x50), Some(0));
    let wrong_type = path(Some(0), Some(0x40), Some(0));
    let no_endpoint = path(Some(5), Some(0x50), Some(1));
    let no_cluster = path(Some(0), Some(0x51), Some(1));
    let no_attr = path(Some(0), Some(0x50), Some(7));
    let wc_cluster = path(Some(0), None, Some(1));
    let wc_attr = path(Some(0), Some(0x50), None);
    let wc_endpoint = path(None, Some(0x50), Some(1));
    let request = write_request(
        &[
            (ok, 0x33),
            (read_only, 1),
            (wrong_type, 0x1_0000),
            (no_endpoint, 1),
            (no_cluster, 1),
            (no_attr, 1),
            (wc_cluster, 1),
            (wc_attr, 1),
            (wc_endpoint, 0x44),
        ],
        None,
    );
    assert_eq!(im.handle_write_req(&mut trans, &request, &mut tx), Ok(ResponseRequired::Yes));
    assert!(trans.is_complete());
    assert_eq!(tx.proto_opcode, OpCode::WriteResponse.to_u8());
    assert_eq!(
        statuses(&tx),
        vec![
            (ok, 0),
            (read_only, 0x88),
            (wrong_type, 0x8d),
            (no_endpoint, 0x7f),
            (no_cluster, 0xc3),
            (no_attr, 0x86),
            (wc_cluster, 0xc3),
            (wc_attr, 0x86),
            (path(Some(0), Some(0x50), Some(1)), 0),
            (path(Some(1), Some(0x50), Some(1)), 0),
        ]
    );
    let dm = &im.consumer;
    assert_eq!(dm.read_attribute_raw(0, 0x50, 1), Ok(AttrValue::Uint8(0x44)));
    assert_eq!(dm.read_attribute_raw(1, 0x50, 1), Ok(AttrValue::Uint8(0x44)));
    assert_eq!(dm.read_attribute_raw(0, 0x40, 0), Ok(AttrValue::Uint16(0x4000)));
    // two writes went to the cluster 0x50 of endpoint 0, one to that of endpoint 1
    assert_eq!(dm.node.endpoints[0].clusters[1].get_dataver(), 2);
    assert_eq!(dm.node.endpoints[1].clusters[0].get_dataver(), 1);
    assert_eq!(dm.node.endpoints[0].clusters[0].get_dataver(), 0);
}

#[test]
fn wildcard_writes_pass_over_refusals() {
    let mut im = InteractionModel::new(DataModel::new(node()).unwrap());
    let mut trans = Transaction::new(SessionMode::PlainText, None);
    let mut tx = Packet::new(1000);
    // attribute 2 is custom on endpoint 1 and missing on endpoint 0
    let request = write_request(&[(path(None, Some(0x50), Some(2)), 1)], Some(true));
    assert_eq!(im.handle_write_req(&mut trans, &request, &mut tx), Ok(ResponseRequired::No));
    assert_eq!(statuses(&tx), vec![]);
    assert_eq!(tx.as_slice(), &[0x15, 0x36, 0, 0x18, 0x18]);
}

#[test]
fn requests_that_cannot_be_read_or_answered() {
    let mut im = InteractionModel::new(DataModel::new(node()).unwrap());
    let mut trans = Transaction::new(SessionMode::PlainText, None);
    let mut tx = Packet::new(1000);
    assert_eq!(im.handle_read_req(&mut trans, &[0x15], &mut tx), Err(Error::InvalidData));
    assert_eq!(im.handle_read_req(&mut trans, &[0x16, 0x18], &mut tx), Err(Error::TLVTypeMismatch));
    // the flag for fabric filtering is required
    assert_eq!(im.handle_read_req(&mut trans, &[0x15, 0x18], &mut tx), Err(Error::NoTagFound));
    assert_eq!(im.handle_write_req(&mut trans, &[0x15, 0x18], &mut tx), Err(Error::NoTagFound));
    assert_eq!(im.handle_invoke_req(&mut trans, &[0x15, 0x29, 2, 0x18], &mut tx), Err(Error::TLVTypeMismatch));
    // an item of an invoke request needs its path and its data
    assert_eq!(
        im.handle_invoke_req(&mut trans, &[0x15, 0x36, 2, 0x15, 0x37, 0, 0x18, 0x18, 0x18, 0x18], &mut tx),
        Err(Error::NoTagFound)
    );
    assert_eq!(tx.as_slice().len(), 0);
    assert_eq!(trans.state, TransactionState::Ongoing);
    // no paths, no reports: only the flag
    assert_eq!(im.handle_read_req(&mut trans, &[0x15, 0x28, 3, 0x18], &mut tx), Ok(ResponseRequired::Yes));
    assert_eq!(tx.as_slice(), &[0x15, 0x29, 4, 0x18]);
    // no room
    let mut trans = Transaction::new(SessionMode::PlainText, None);
    let mut small = Packet::new(3);
    assert_eq!(im.handle_read_req(&mut trans, &[0x15, 0x28, 3, 0x18], &mut small), Err(Error::NoSpace));
    assert_eq!(small.as_slice(), &[0x15, 0x29, 4]);
    assert!(!trans.is_complete());
    // data version filters and fabric filtering are received and ignored
    let req = ReadReq::from_tlv(&get_root_node(&[0x15, 0x29, 3, 0x36, 4, 0x18, 0x18]).unwrap()).unwrap();
    assert!(req.fabric_filtered);
    assert!(req.dataver_filters);
    assert!(req.attr_requests.is_none());
    let root = get_root_node(&[0x15, 0x36, 2, 0x18, 0x18]).unwrap();
    assert_eq!(WriteReq::from_tlv(&root).unwrap().write_requests.len(), 0);
    assert!(InvReq::from_tlv(&root).unwrap().inv_requests.unwrap().is_empty());
    assert_eq!(OpCode::from_u8(8), Some(OpCode::InvokeRequest));
    assert_eq!(OpCode::from_u8(11), None);
    assert_eq!(status_of_error(Error::EndpointNotFound), IMStatusCode::UnsupportedEndpoint);
    assert_eq!(status_of_error(Error::CommandNotFound), IMStatusCode::UnsupportedCommand);
    assert_eq!(status_of_error(Error::NoSpace), IMStatusCode::Failure);
    assert!(path(None, Some(1), Some(1)).is_wildcard());
    assert_eq!(path(Some(1), Some(2), Some(3)).not_wildcard(), Ok((1, 2, 3)));
    assert_eq!(path(Some(1), None, Some(3)).not_wildcard(), Err(Error::Invalid));
}

fn command(c: &mut GenCommCluster, cmd: u16, data: &[u8], trans: &mut Transaction) -> (Result<(), IMStatusCode>, Vec<u8>) {
    let data = get_root_node(data).unwrap();
    let req = CommandReq { cmd: CmdPath::new(Some(0), Some(0x30), Some(cmd)), data: &data };
    let mut resp = TLVWriter::new(WriteBuf::new(100));
    let r = c.handle_command(&req, trans, &mut resp);
    (r, resp.as_slice().to_vec())
}

fn response(cmd: u8, status: u8) -> Vec<u8> {
    vec![
        0x15, 0x35, 0, 0x37, 0, 0x24, 0, 0, 0x24, 1, 0x30, 0x24, 2, cmd, 0x18, 0x35, 1, 0x24, 0, status, 0x2c, 1, 0, 0x18,
        0x18, 0x18,
    ]
}

#[test]
fn general_commissioning_commands() {
    let mut c = GenCommCluster::new().unwrap();
    assert_eq!(c.base().id, 0x30);
    assert_eq!(c.expiry_len, 120);
    assert_eq!(c.failsafe().state, FailSafeState::Idle);
    let pase = SessionMode::Pase;
    let arm = [0x15, 0x24, 0, 60, 0x24, 1, 0, 0x18];
    // completing before arming is not authorised, but answered
    let mut trans = Transaction::new(SessionMode::Case(1), Some(1));
    assert_eq!(command(&mut c, 4, &[0x15, 0x18], &mut trans), (Ok(()), response(5, 2)));
    assert!(trans.is_complete());
    // arming
    let mut trans = Transaction::new(pase, None);
    assert_eq!(command(&mut c, 0, &arm, &mut trans), (Ok(()), response(1, 0)));
    assert!(trans.is_complete());
    assert!(c.failsafe().is_armed());
    // arming again by the same session changes the time
    let mut trans = Transaction::new(pase, None);
    assert_eq!(command(&mut c, 0, &[0x15, 0x24, 0, 90, 0x24, 1, 0, 0x18], &mut trans).0, Ok(()));
    match c.failsafe().state {
        FailSafeState::Armed(ctx) => {
            assert_eq!(ctx.timeout, 90);
            assert_eq!(ctx.session_mode, pase);
            assert_eq!(ctx.noc_state, NocState::NocNotRecvd);
        }
        FailSafeState::Idle => panic!("the fail-safe is idle"),
    }
    // another session finds it busy
    let mut trans = Transaction::new(SessionMode::Case(1), Some(1));
    assert_eq!(command(&mut c, 0, &arm, &mut trans), (Err(IMStatusCode::Busy), vec![]));
    assert!(!trans.is_complete());
    // parameters that cannot be read
    let mut trans = Transaction::new(pase, None);
    assert_eq!(command(&mut c, 0, &[0x15, 0x24, 0, 60, 0x18], &mut trans), (Err(IMStatusCode::InvalidCommand), vec![]));
    assert_eq!(command(&mut c, 0, &[0x04, 1], &mut trans), (Err(IMStatusCode::InvalidCommand), vec![]));
    // the regulatory configuration needs a country code
    assert_eq!(command(&mut c, 2, &[0x15, 0x2c, 1, 2, b'X', b'X', 0x18], &mut trans), (Ok(()), response(3, 0)));
    assert_eq!(command(&mut c, 2, &[0x15, 0x24, 1, 2, 0x18], &mut trans), (Err(IMStatusCode::InvalidCommand), vec![]));
    assert_eq!(command(&mut c, 2, &[0x15, 0x18], &mut trans), (Err(IMStatusCode::InvalidCommand), vec![]));
    // unknown commands
    assert_eq!(command(&mut c, 1, &[0x15, 0x18], &mut trans), (Err(IMStatusCode::UnsupportedCommand), vec![]));
    // completing needs credentials for the fabric of the session
    let mut trans = Transaction::new(SessionMode::Case(1), Some(1));
    assert_eq!(command(&mut c, 4, &[0x15, 0x18], &mut trans), (Ok(()), response(5, 2)));
    assert!(c.failsafe().is_armed());
    c.failsafe.record_add_noc(1).unwrap();
    let mut trans = Transaction::new(SessionMode::Case(2), Some(2));
    assert_eq!(command(&mut c, 4, &[0x15, 0x18], &mut trans), (Ok(()), response(5, 2)));
    let mut trans = Transaction::new(SessionMode::Case(1), None);
    assert_eq!(command(&mut c, 4, &[0x15, 0x18], &mut trans), (Ok(()), response(5, 2)));
    // the session without fabric was refused, but it was the right one: the fail-safe is idle
    assert!(!c.failsafe().is_armed());
}

#[test]
fn general_commissioning_completes() {
    let mut c = GenCommCluster::new().unwrap();
    c.failsafe.arm(10, SessionMode::Pase).unwrap();
    c.failsafe.record_add_noc(3).unwrap();
    let mut trans = Transaction::new(SessionMode::Case(3), Some(3));
    assert_eq!(command(&mut c, 4, &[0x15, 0x18], &mut trans), (Ok(()), response(5, 0)));
    assert_eq!(c.failsafe().state, FailSafeState::Idle);
}

#[test]
fn general_commissioning_attributes() {
    let mut c = GenCommCluster::new().unwrap();
    let mut tw = TLVWriter::new(WriteBuf::new(100));
    c.read_attribute(TagType::Context(2), &mut tw, 1).unwrap();
    c.read_attribute(TagType::Context(2), &mut tw, 0).unwrap();
    c.read_attribute(TagType::Context(2), &mut tw, 2).unwrap();
    c.read_attribute(TagType::Context(2), &mut tw, 3).unwrap();
    assert_eq!(
        tw.as_slice(),
        &[0x35, 2, 0x24, 0, 120, 0x18, 0x24, 2, 0, 0x24, 2, 2, 0x24, 2, 2][..]
    );
    assert_eq!(c.read_attribute(TagType::Context(2), &mut tw, 4), Err(Error::Invalid));
    let mut small = TLVWriter::new(WriteBuf::new(4));
    assert_eq!(c.read_attribute(TagType::Anonymous, &mut small, 1), Err(Error::NoSpace));
    let mut exact = TLVWriter::new(WriteBuf::new(5));
    assert_eq!(c.read_attribute(TagType::Anonymous, &mut exact, 1), Ok(()));
    assert_eq!(exact.as_slice(), &[0x15, 0x24, 0, 120, 0x18]);
    // the bread crumb can be written, the rest cannot
    let v0 = c.base().get_dataver();
    assert_eq!(c.write_attribute(&TLVElement::new_uint(TagType::Anonymous, 77), 0), Ok(()));
    assert_eq!(c.base().read_attribute_raw(0), Ok(AttrValue::Uint64(77)));
    assert_eq!(c.base().get_dataver(), v0 + 1);
    assert_eq!(c.write_attribute(&TLVElement::new_uint(TagType::Anonymous, 1), 2), Err(IMStatusCode::UnsupportedWrite));
    assert_eq!(c.write_attribute(&TLVElement::new_uint(TagType::Anonymous, 1), 1), Err(IMStatusCode::UnsupportedWrite));
    assert_eq!(attr_bread_crumb_new(5).unwrap().value, AttrValue::Uint64(5));
    assert_eq!(attr_reg_config_new(RegLocationType::Outdoor).unwrap().value, AttrValue::Uint8(1));
    assert_eq!(attr_location_capability_new(RegLocationType::Indoor).unwrap().id, 3);
    assert_eq!(attr_comm_info_new().unwrap().value, AttrValue::Custom);
    assert_eq!(RegLocationType::IndoorOutdoor.to_u8(), 2);
    let data = get_root_node(&[0x15, 0x24, 1, 9, 0x24, 0, 8, 0x18]).unwrap();
    assert_eq!(get_armfailsafe_params(&data), Ok((8, 9)));
    let data = get_root_node(&[0x15, 0x24, 0, 8, 0x18]).unwrap();
    assert_eq!(get_armfailsafe_params(&data), Err(Error::NoTagFound));
    let data = get_root_node(&[0x15, 0x25, 0, 0, 1, 0x24, 1, 0, 0x18]).unwrap();
    assert_eq!(get_armfailsafe_params(&data), Err(Error::TLVTypeMismatch));
}

#[test]
fn fail_safe_state_machine() {
    let mut f = FailSafe::new();
    assert!(!f.is_armed());
    assert_eq!(f.disarm(SessionMode::Pase), Err(Error::Invalid));
    assert_eq!(f.record_add_noc(1), Err(Error::Invalid));
    assert_eq!(f.arm(5, SessionMode::Pase), Ok(()));
    assert_eq!(f.arm(6, SessionMode::PlainText), Err(Error::Invalid));
    assert_eq!(f.disarm(SessionMode::Pase), Err(Error::Invalid));
    assert_eq!(f.record_add_noc(4), Ok(()));
    assert_eq!(f.record_add_noc(4), Err(Error::Invalid));
    assert_eq!(f.disarm(SessionMode::Case(5)), Err(Error::Invalid));
    assert!(f.is_armed());
    assert_eq!(f.disarm(SessionMode::Case(4)), Ok(()));
    assert!(!f.is_armed());
    assert!(!f.expire());
    f.arm(5, SessionMode::Pase).unwrap();
    assert!(f.expire());
    assert!(!f.is_armed());
}

#[test]
fn fabrics_by_destination_identifier() {
    let fabric = |node_id, ipk: u8| Fabric {
        node_id,
        fabric_id: 7,
        ipk: vec![ipk; 16],
        root_ca: vec![],
        icac: vec![],
        noc: vec![],
        noc_key: vec![1; 32],
        root_pubkey: vec![4; 65],
    };
    let dest = |node_id: u64, ipk: u8, random: &[u8]| {
        let mut msg = random.to_vec();
        msg.extend_from_slice(&[4; 65]);
        msg.extend_from_slice(&7u64.to_le_bytes());
        msg.extend_from_slice(&node_id.to_le_bytes());
        let key = openssl::pkey::PKey::hmac(&[ipk; 16]).unwrap();
        let mut s = openssl::sign::Signer::new(openssl::hash::MessageDigest::sha256(), &key).unwrap();
        s.update(&msg).unwrap();
        s.sign_to_vec().unwrap()
    };
    let mut mgr = FabricMgr::new();
    assert_eq!(mgr.add(fabric(1, 0xaa)), 0);
    assert_eq!(mgr.add(fabric(2, 0xbb)), 1);
    mgr.fabrics.push(None);
    assert_eq!(mgr.add(fabric(2, 0xbb)), 3);
    let random = [9u8; 32];
    assert_eq!(mgr.match_dest_id(&random, &dest(1, 0xaa, &random)), Ok(0));
    assert_eq!(mgr.match_dest_id(&random, &dest(2, 0xbb, &random)), Ok(1));
    assert_eq!(mgr.match_dest_id(&random, &dest(2, 0xaa, &random)), Err(Error::NotFound));
    assert_eq!(mgr.match_dest_id(&[8u8; 32], &dest(1, 0xaa, &random)), Err(Error::NotFound));
    assert_eq!(mgr.match_dest_id(&random, &random), Err(Error::NotFound));
    assert!(mgr.get_fabric(0).is_some());
    assert!(mgr.get_fabric(2).is_none());
    assert!(mgr.get_fabric(4).is_none());
    assert_eq!(mgr.fabrics[0].as_ref().unwrap().match_dest_id(&random, &dest(1, 0xaa, &random)), Ok(()));
    // RFC 4231, test case 2, proves the HMAC itself
    let jefe = Fabric {
        node_id: 0x3f67_6e69_6874_6f6e,
        fabric_id: 0x2072_6f66_2074_6e61,
        ipk: b"Jefe".to_vec(),
        root_ca: vec![],
        icac: vec![],
        noc: vec![],
        noc_key: vec![],
        root_pubkey: b"do ya w".to_vec(),
    };
    let tag = [
        0x5b, 0xdc, 0xc1, 0x46, 0xbf, 0x60, 0x75, 0x4e, 0x6a, 0x04, 0x24, 0x26, 0x08, 0x95, 0x75, 0xc7, 0x5a, 0x00,
        0x3f, 0x08, 0x9d, 0x27, 0x39, 0x83, 0x9d, 0xec, 0x58, 0xb9, 0x64, 0xec, 0x38, 0x43,
    ];
    assert_eq!(jefe.match_dest_id(b"what ", &tag), Ok(()));
    // a signature of the node verifies under its public key
    let sig = mgr.fabrics[0].as_ref().unwrap().sign_msg(b"hello").unwrap();
    assert_eq!(sig.len(), 64);
}

#[test]
fn order_of_a_node_can_be_tested() {
    let mut n = node();
    assert!(n.is_wf());
    assert!(n.endpoints[0].is_wf());
    assert!(n.endpoints[0].clusters[0].is_wf());
    // clusters out of order
    n.endpoints[0].clusters.swap(0, 1);
    assert!(!n.endpoints[0].is_wf());
    assert!(!n.is_wf());
    n.endpoints[0].clusters.swap(0, 1);
    assert!(n.is_wf());
    // an attribute twice
    let twice = n.endpoints[1].clusters[0].attributes[0];
    n.endpoints[1].clusters[0].attributes.insert(0, twice);
    assert!(!n.endpoints[1].clusters[0].is_wf());
    assert!(n.endpoints[0].is_wf());
    assert!(!n.endpoints[1].is_wf());
    assert!(!n.is_wf());
    let empty: Node<Cluster> = Node::new().unwrap();
    assert!(empty.is_wf());
    assert!(Cluster::new(1).unwrap().is_wf());
}

#[test]
fn lengths_of_the_keys_of_a_fabric_can_be_tested() {
    let good = || Fabric {
        node_id: 1,
        fabric_id: 2,
        ipk: vec![0; 16],
        root_ca: vec![],
        icac: vec![],
        noc: vec![],
        noc_key: vec![1; 32],
        root_pubkey: vec![],
    };
    assert!(good().is_wf());
    assert!(!Fabric { ipk: vec![0; 15], ..good() }.is_wf());
    assert!(!Fabric { noc_key: vec![1; 33], ..good() }.is_wf());
    let mut mgr = FabricMgr::new();
    assert!(mgr.is_wf());
    mgr.add(good());
    mgr.fabrics.push(None);
    assert!(mgr.is_wf());
    mgr.fabrics.push(Some(Fabric { ipk: vec![], ..good() }));
    assert!(!mgr.is_wf());
}

#[test]
fn data_made_by_a_closure_cannot_be_written() {
    let mut c = cluster(0x50, &[(1, AttrValue::Uint8(0x11), true)]);
    let p = path(Some(0), Some(0x50), Some(1));
    let mut expected = TLVWriter::new(WriteBuf::new(100));
    put_attr_status(&mut expected, &p, IMStatusCode::Failure);
    let mut tw = TLVWriter::new(WriteBuf::new(100));
    handle_write_attr_data(&mut c, &mut tw, &p, &AttrDataType::Closure, 1, false);
    assert_eq!(tw.as_slice(), expected.as_slice());
    assert!(tw.as_slice().len() > 0);
    assert_eq!(c.get_dataver(), 0);
    assert_eq!(c.read_attribute_raw(1), Ok(AttrValue::Uint8(0x11)));
    // under a wildcard the failure is passed over
    let mut tw = TLVWriter::new(WriteBuf::new(100));
    handle_write_attr_data(&mut c, &mut tw, &p, &AttrDataType::Closure, 1, true);
    assert_eq!(tw.as_slice().len(), 0);
    // an element is written
    let e = TLVElement::new_uint(TagType::Anonymous, 0x22);
    let mut ok = TLVWriter::new(WriteBuf::new(100));
    put_attr_status(&mut ok, &p, IMStatusCode::Sucess);
    let mut tw = TLVWriter::new(WriteBuf::new(100));
    handle_write_attr_data(&mut c, &mut tw, &p, &AttrDataType::Tlv(&e), 1, false);
    assert_eq!(tw.as_slice(), ok.as_slice());
    assert_eq!(c.get_dataver(), 1);
    assert_eq!(c.read_attribute_raw(1), Ok(AttrValue::Uint8(0x22)));
}
