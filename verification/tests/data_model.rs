use matter::data_model::dispatch::DataModel;
use matter::data_model::node::{Endpoint, Node};
use matter::data_model::objects::{
    access_rv, access_rw, AttrValue, Attribute, Cluster, ClusterType, CmdPath, CommandReq,
    SessionMode, Transaction,
};
use matter::error::Error;
use matter::interaction_model::handlers::{InteractionModel, Packet, ResponseRequired};
use matter::interaction_model::messages::cmd_path_element;
use matter::interaction_model::requests::cmd_path_from;
use matter::interaction_model::status::{IMStatusCode, OpCode};
use matter::tlv::model::TagType;
use matter::tlv::parser::{get_root_node_struct, TLVElement};
use matter::tlv::writer::TLVWriter;
use matter::utils::writebuf::WriteBuf;

const ECHO_ID: u32 = 0xABCD;
const ECHO_REQ: u16 = 0x00;
const ECHO_RESP: u16 = 0x01;
const ON_OFF_ID: u32 = 0x0006;
const ON_OFF_ON: u16 = 0x01;
const ON_OFF_OFF: u16 = 0x00;

struct EchoCluster {
    base: Cluster,
    multiplier: u8,
}

struct OnOffCluster {
    base: Cluster,
}

enum TestCluster {
    Echo(EchoCluster),
    OnOff(OnOffCluster),
}

impl TestCluster {
    fn echo(multiplier: u8) -> TestCluster {
        let mut base = Cluster::new(ECHO_ID).unwrap();
        base.add_attribute(Attribute::new(0, AttrValue::Uint16(0x1234), access_rw()).unwrap())
            .unwrap();
        base.add_attribute(Attribute::new(1, AttrValue::Uint8(7), access_rv()).unwrap())
            .unwrap();
        TestCluster::Echo(EchoCluster { base, multiplier })
    }

    fn on_off() -> TestCluster {
        let mut base = Cluster::new(ON_OFF_ID).unwrap();
        base.add_attribute(Attribute::new(0, AttrValue::Bool(false), access_rv()).unwrap())
            .unwrap();
        TestCluster::OnOff(OnOffCluster { base })
    }

    fn base_ref_mut(&mut self) -> &mut Cluster {
        match self {
            TestCluster::Echo(c) => &mut c.base,
            TestCluster::OnOff(c) => &mut c.base,
        }
    }
}

impl ClusterType for TestCluster {
    fn base(&self) -> &Cluster {
        match self {
            TestCluster::Echo(c) => &c.base,
            TestCluster::OnOff(c) => &c.base,
        }
    }

    fn read_attribute(&self, tag: TagType, tw: &mut TLVWriter, attr_id: u16) -> Result<(), Error> {
        self.base().read_attribute(tag, tw, attr_id)
    }

    fn write_attribute(&mut self, data: &TLVElement, attr_id: u16) -> Result<(), IMStatusCode> {
        self.base_ref_mut().write_attribute(data, attr_id)
    }

    fn handle_command(
        &mut self,
        req: &CommandReq<'_>,
        trans: &mut Transaction,
        resp: &mut TLVWriter,
    ) -> Result<(), IMStatusCode> {
        let cmd = req.cmd.path.leaf;
        match self {
            TestCluster::Echo(c) => {
                if cmd != Some(ECHO_REQ as u32) {
                    return Err(IMStatusCode::UnsupportedCommand);
                }
                let a = req.data.u8().map_err(|_| IMStatusCode::InvalidCommand)?;
                let mut path = req.cmd.path;
                path.leaf = Some(ECHO_RESP as u32);
                let data = TLVElement::new_container(
                    TagType::Context(1),
                    0x15,
                    vec![TLVElement::new_uint(
                        TagType::Context(0),
                        (a as u64) * (c.multiplier as u64),
                    )],
                );
                let inner = TLVElement::new_container(
                    TagType::Context(0),
                    0x15,
                    vec![cmd_path_element(TagType::Context(0), &path), data],
                );
                let outer = TLVElement::new_container(TagType::Anonymous, 0x15, vec![inner]);
                let _ = resp.element(&outer);
                trans.complete();
                Ok(())
            }
            TestCluster::OnOff(c) => {
                let value = match cmd {
                    Some(x) if x == ON_OFF_ON as u32 => true,
                    Some(x) if x == ON_OFF_OFF as u32 => false,
                    _ => return Err(IMStatusCode::UnsupportedCommand),
                };
                c.base.attributes[0].value = AttrValue::Bool(value);
                trans.complete();
                Err(IMStatusCode::Sucess)
            }
        }
    }
}

fn test_node() -> Node<TestCluster> {
    let mut node: Node<TestCluster> = Node::new().unwrap();
    assert_eq!(node.add_endpoint(), Ok(0));
    assert_eq!(node.add_endpoint(), Ok(1));
    node.endpoints[0].add_cluster(TestCluster::echo(2)).unwrap();
    node.endpoints[1].add_cluster(TestCluster::echo(3)).unwrap();
    node.endpoints[1].add_cluster(TestCluster::on_off()).unwrap();
    node
}

fn invoke_request(input: &[(CmdPath, Option<u8>)]) -> Vec<u8> {
    let mut tw = TLVWriter::new(WriteBuf::new(400));
    tw.start_struct(TagType::Anonymous).unwrap();
    tw.bool(TagType::Context(0), false).unwrap();
    tw.bool(TagType::Context(1), false).unwrap();
    tw.start_array(TagType::Context(2)).unwrap();
    for (cmd, data) in input {
        tw.start_struct(TagType::Anonymous).unwrap();
        tw.element(&cmd_path_element(TagType::Context(0), &cmd.path)).unwrap();
        if let Some(d) = data {
            tw.u8(TagType::Context(1), *d).unwrap();
        }
        tw.end_container().unwrap();
    }
    tw.end_container().unwrap();
    tw.end_container().unwrap();
    tw.as_slice().to_vec()
}

enum ExpectedInvResp {
    Cmd(CmdPath, u8),
    Status(CmdPath, u16),
}

// Helper for handling Invoke Command sequences
fn handle_commands(input: &[(CmdPath, Option<u8>)], expected: &[ExpectedInvResp]) {
    let request = invoke_request(input);
    let mut im = InteractionModel::new(DataModel::new(test_node()).unwrap());
    let mut trans = Transaction::new(SessionMode::PlainText, None);
    let mut proto_tx = Packet::new(400);
    let r = im.handle_invoke_req(&mut trans, &request, &mut proto_tx);
    assert_eq!(r, Ok(ResponseRequired::Yes));
    assert_eq!(proto_tx.proto_opcode, OpCode::InvokeResponse.to_u8());
    let root = get_root_node_struct(proto_tx.as_slice()).unwrap();

    let mut index = 0;
    let responses = root.find_tag(1).unwrap().confirm_array().unwrap();
    for response in responses.iter() {
        println!("Validating index {}", index);
        let members = response.confirm_struct().unwrap();
        assert_eq!(members.len(), 1);
        let inner = &members[0];
        match &expected[index] {
            ExpectedInvResp::Cmd(e_c, e_d) => {
                assert!(inner.check_ctx_tag(0), "expected InvResponse::Cmd");
                let c = cmd_path_from(inner.find_tag(0).unwrap()).unwrap();
                let d = inner.find_tag(1).unwrap();
                assert_eq!(e_c.path, c);
                assert_eq!(*e_d, d.find_tag(0).unwrap().u8().unwrap());
            }
            ExpectedInvResp::Status(e_c, e_status) => {
                assert!(inner.check_ctx_tag(1), "expected InvResponse::Status");
                let c = cmd_path_from(inner.find_tag(0).unwrap()).unwrap();
                let status = inner.find_tag(1).unwrap().find_tag(0).unwrap().u16().unwrap();
                assert_eq!(e_c.path, c);
                assert_eq!(*e_status, status);
            }
        }
        println!("Index {} success", index);
        index += 1;
    }
    assert_eq!(index, expected.len());
}

fn echo_req(endpoint: u16, data: u8) -> (CmdPath, Option<u8>) {
    (CmdPath::new(Some(endpoint), Some(ECHO_ID), Some(ECHO_REQ)), Some(data))
}

fn echo_resp(endpoint: u16, data: u8) -> ExpectedInvResp {
    ExpectedInvResp::Cmd(CmdPath::new(Some(endpoint), Some(ECHO_ID), Some(ECHO_RESP)), data)
}

#[test]
fn test_invoke_cmds_success() {
    // 2 echo Requests
    // - one on endpoint 0 with data 5,
    // - another on endpoint 1 with data 10
    let input = &[echo_req(0, 5), echo_req(1, 10)];
    let expected = &[echo_resp(0, 10), echo_resp(1, 30)];
    handle_commands(input, expected);
}

#[test]
fn test_invoke_cmds_unsupported_fields() {
    // 5 commands
    // - endpoint doesn't exist - UnsupportedEndpoint
    // - cluster doesn't exist - UnsupportedCluster
    // - cluster doesn't exist and endpoint is wildcard - no cluster to answer
    // - command doesn't exist - UnsupportedCommand
    // - command doesn't exist and endpoint is wildcard - passed over
    let invalid_endpoint = CmdPath::new(Some(2), Some(ECHO_ID), Some(ECHO_REQ));
    let invalid_cluster = CmdPath::new(Some(0), Some(0x1234), Some(ECHO_REQ));
    let invalid_cluster_wc_endpoint = CmdPath::new(None, Some(0x1234), Some(ECHO_REQ));
    let invalid_command = CmdPath::new(Some(0), Some(ECHO_ID), Some(0x1234));
    let invalid_command_wc_endpoint = CmdPath::new(None, Some(ECHO_ID), Some(0x1234));
    let input = &[
        (invalid_endpoint, Some(5)),
        (invalid_cluster, Some(5)),
        (invalid_cluster_wc_endpoint, Some(5)),
        (invalid_command, Some(5)),
        (invalid_command_wc_endpoint, Some(5)),
    ];

    let expected = &[
        ExpectedInvResp::Status(invalid_endpoint, IMStatusCode::UnsupportedEndpoint.to_u16()),
        ExpectedInvResp::Status(invalid_cluster, IMStatusCode::UnsupportedCluster.to_u16()),
        ExpectedInvResp::Status(invalid_command, IMStatusCode::UnsupportedCommand.to_u16()),
    ];
    handle_commands(input, expected);
}

#[test]
fn test_invoke_cmd_wc_endpoint_all_have_clusters() {
    // 1 echo Request with wildcard endpoint
    // should generate 2 responses from the echo clusters on both
    let input = &[(CmdPath::new(None, Some(ECHO_ID), Some(ECHO_REQ)), Some(5))];
    let expected = &[echo_resp(0, 10), echo_resp(1, 15)];
    handle_commands(input, expected);
}

#[test]
fn test_invoke_cmd_wc_endpoint_only_1_has_cluster() {
    // 1 on command for on/off cluster with wildcard endpoint
    // should generate 1 response from the on-off cluster
    let target = CmdPath::new(None, Some(ON_OFF_ID), Some(ON_OFF_ON));
    let expected_path = CmdPath::new(Some(1), Some(ON_OFF_ID), Some(ON_OFF_ON));
    let input = &[(target, Some(1))];
    let expected = &[ExpectedInvResp::Status(expected_path, 0)];
    handle_commands(input, expected);
}

#[test]
fn invoke_on_absent_endpoint_is_unsupported_endpoint() {
    let path = CmdPath::new(Some(2), Some(ECHO_ID), Some(ECHO_REQ));
    handle_commands(
        &[(path, Some(1))],
        &[ExpectedInvResp::Status(path, IMStatusCode::UnsupportedEndpoint.to_u16())],
    );
}

#[test]
fn clusters_and_attributes_stay_in_ascending_order() {
    let mut ep: Endpoint<TestCluster> = Endpoint::new();
    ep.add_cluster(TestCluster::on_off()).unwrap();
    ep.add_cluster(TestCluster::echo(1)).unwrap();
    assert_eq!(ep.add_cluster(TestCluster::echo(9)).map_err(|e| e), Err(Error::Invalid));
    assert_eq!(ep.clusters.len(), 2);
    assert_eq!(ep.clusters[0].base().id, ON_OFF_ID);
    assert_eq!(ep.clusters[1].base().id, ECHO_ID);
    let mut c = Cluster::new(1).unwrap();
    c.add_attribute(Attribute::new(5, AttrValue::Uint8(1), access_rv()).unwrap()).unwrap();
    c.add_attribute(Attribute::new(2, AttrValue::Uint8(2), access_rv()).unwrap()).unwrap();
    c.add_attribute(Attribute::new(9, AttrValue::Uint8(3), access_rv()).unwrap()).unwrap();
    assert_eq!(
        c.add_attribute(Attribute::new(2, AttrValue::Uint8(4), access_rv()).unwrap()),
        Err(Error::Invalid)
    );
    let ids: Vec<u16> = c.attributes.iter().map(|a| a.id).collect();
    assert_eq!(ids, vec![2, 5, 9]);
}

#[test]
fn read_attribute_raw_reports_what_is_missing() {
    let dm = DataModel::new(test_node()).unwrap();
    assert_eq!(dm.read_attribute_raw(0, ECHO_ID, 0), Ok(AttrValue::Uint16(0x1234)));
    assert_eq!(dm.read_attribute_raw(2, ECHO_ID, 0), Err(IMStatusCode::UnsupportedEndpoint));
    assert_eq!(dm.read_attribute_raw(0, 0x99, 0), Err(IMStatusCode::UnsupportedCluster));
    assert_eq!(dm.read_attribute_raw(0, ECHO_ID, 7), Err(IMStatusCode::UnsupportedAttribute));
}

#[test]
fn a_write_that_succeeds_raises_the_data_version_by_one() {
    let mut c = Cluster::new(1).unwrap();
    c.add_attribute(Attribute::new(0, AttrValue::Uint16(1), access_rw()).unwrap()).unwrap();
    c.add_attribute(Attribute::new(1, AttrValue::Uint16(1), access_rv()).unwrap()).unwrap();
    let v0 = c.get_dataver();
    let data = TLVElement::new_uint(TagType::Anonymous, 300);
    assert_eq!(c.write_attribute(&data, 0), Ok(()));
    assert_eq!(c.get_dataver(), v0 + 1);
    assert_eq!(c.read_attribute_raw(0), Ok(AttrValue::Uint16(300)));
    // refused writes leave the version alone
    assert_eq!(c.write_attribute(&data, 1), Err(IMStatusCode::UnsupportedWrite));
    assert_eq!(c.write_attribute(&data, 9), Err(IMStatusCode::UnsupportedAttribute));
    let wrong = TLVElement::new_bool(TagType::Anonymous, true);
    assert_eq!(c.write_attribute(&wrong, 0), Err(IMStatusCode::InvalidDataType));
    let too_big = TLVElement::new_uint(TagType::Anonymous, 0x1_0000);
    assert_eq!(c.write_attribute(&too_big, 0), Err(IMStatusCode::InvalidDataType));
    assert_eq!(c.get_dataver(), v0 + 1);
    c.data_ver = u32::MAX;
    assert_eq!(c.write_attribute(&data, 0), Err(IMStatusCode::ResourceExhausted));
    assert_eq!(c.get_dataver(), u32::MAX);
}
