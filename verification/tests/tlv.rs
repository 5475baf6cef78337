use matter::error::Error;
use matter::tlv::model::TagType;
use matter::tlv::parser::{get_root_node, get_root_node_struct, parse_element, TLVElement};
use matter::tlv::record::{
    derive_fromtlv, derive_totlv, field_tags, match_fields, parse_tag_val, parse_tlvargs, ArgLit,
    RecordKind, TlvArg, TlvArgs,
};
use matter::tlv::writer::TLVWriter;
use matter::utils::bytes::{copy_into, copy_range, push_le, read_le};
use matter::utils::writebuf::WriteBuf;

fn writer(cap: usize) -> TLVWriter {
    TLVWriter::new(WriteBuf::new(cap))
}

#[test]
fn little_endian_helpers() {
    let buf = [0x78, 0x56, 0x34, 0x12, 0xff, 0x01, 0x02, 0x03, 0x04];
    assert_eq!(read_le(&buf, 0, 4), 0x12345678);
    assert_eq!(read_le(&buf, 1, 2), 0x3456);
    assert_eq!(read_le(&buf, 4, 1), 0xff);
    assert_eq!(read_le(&buf, 0, 0), 0);
    assert_eq!(read_le(&buf, 1, 8), 0x0403_0201_ff12_3456);
    let mut out = vec![9];
    push_le(&mut out, 0x0102_0304_0506_0708, 8);
    assert_eq!(out, vec![9, 8, 7, 6, 5, 4, 3, 2, 1]);
    let mut out = vec![];
    push_le(&mut out, 0x1234_5678, 2);
    assert_eq!(out, vec![0x78, 0x56]);
    push_le(&mut out, 0x1234_5678, 0);
    assert_eq!(out.len(), 2);
    assert_eq!(copy_range(&buf, 2, 5), vec![0x34, 0x12, 0xff]);
    let mut dst = [1u8, 2, 3, 4];
    copy_into(&mut dst, &[9, 8]);
    assert_eq!(dst, [9, 8, 3, 4]);
}

#[test]
fn integers_take_the_narrowest_width() {
    let mut tw = writer(100);
    tw.u64(TagType::Context(1), 0xff).unwrap();
    tw.u64(TagType::Context(2), 0x100).unwrap();
    tw.u64(TagType::Context(3), 0xffff).unwrap();
    tw.u64(TagType::Context(4), 0x1_0000).unwrap();
    tw.u64(TagType::Context(5), 0xffff_ffff).unwrap();
    tw.u64(TagType::Context(6), 0x1_0000_0000).unwrap();
    assert_eq!(
        tw.as_slice(),
        &[
            0x24, 1, 0xff, // one byte
            0x25, 2, 0x00, 0x01, // two bytes
            0x25, 3, 0xff, 0xff, //
            0x26, 4, 0x00, 0x00, 0x01, 0x00, // four bytes
            0x26, 5, 0xff, 0xff, 0xff, 0xff, //
            0x27, 6, 0, 0, 0, 0, 1, 0, 0, 0, // eight bytes
        ][..]
    );
    let mut tw = writer(100);
    tw.u8(TagType::Anonymous, 7).unwrap();
    tw.u16(TagType::Anonymous, 7).unwrap();
    tw.u32(TagType::Anonymous, 0x1234).unwrap();
    assert_eq!(tw.as_slice(), &[0x04, 7, 0x04, 7, 0x05, 0x34, 0x12]);
}

#[test]
fn signed_integers_in_twos_complement() {
    let mut tw = writer(100);
    tw.i64(TagType::Anonymous, -1).unwrap();
    tw.i64(TagType::Anonymous, 127).unwrap();
    tw.i64(TagType::Anonymous, -128).unwrap();
    tw.i64(TagType::Anonymous, 128).unwrap();
    tw.i64(TagType::Anonymous, -129).unwrap();
    tw.i64(TagType::Anonymous, -0x8000_0000).unwrap();
    tw.i64(TagType::Anonymous, 0x8000_0000).unwrap();
    tw.i64(TagType::Anonymous, i64::MIN).unwrap();
    let bytes = tw.as_slice().to_vec();
    assert_eq!(
        bytes,
        vec![
            0x00, 0xff, 0x00, 0x7f, 0x00, 0x80, 0x01, 0x80, 0x00, 0x01, 0x7f, 0xff, //
            0x02, 0x00, 0x00, 0x00, 0x80, //
            0x03, 0x00, 0x00, 0x00, 0x80, 0, 0, 0, 0, //
            0x03, 0, 0, 0, 0, 0, 0, 0, 0x80,
        ]
    );
    // and back
    let expected = [-1, 127, -128, 128, -129, -0x8000_0000, 0x8000_0000, i64::MIN];
    let mut off = 0;
    for want in expected {
        let (e, end) = parse_element(&bytes, off).unwrap();
        assert_eq!(e.i64(), Ok(want));
        off = end;
    }
    assert_eq!(off, bytes.len());
    assert_eq!(TLVElement::new_uint(TagType::Anonymous, 1).i64(), Err(Error::TLVTypeMismatch));
}

#[test]
fn every_form_of_tag() {
    let tags = [
        (TagType::Anonymous, vec![0x04, 1]),
        (TagType::Context(9), vec![0x24, 9, 1]),
        (TagType::CommonPrf16(0x1234), vec![0x44, 0x34, 0x12, 1]),
        (TagType::CommonPrf32(0x1234_5678), vec![0x64, 0x78, 0x56, 0x34, 0x12, 1]),
        (TagType::ImplPrf16(0xfffe), vec![0x84, 0xfe, 0xff, 1]),
        (TagType::ImplPrf32(1), vec![0xa4, 1, 0, 0, 0, 1]),
        (TagType::FullQual48(0x0102_0304_0506), vec![0xc4, 6, 5, 4, 3, 2, 1, 1]),
        (TagType::FullQual64(0x0102_0304_0506_0708), vec![0xe4, 8, 7, 6, 5, 4, 3, 2, 1, 1]),
    ];
    for (tag, bytes) in tags {
        let mut tw = writer(20);
        tw.u8(tag, 1).unwrap();
        assert_eq!(tw.as_slice(), &bytes[..]);
        let e = get_root_node(&bytes).unwrap();
        assert_eq!(e.get_tag(), tag);
        assert_eq!(e.u8(), Ok(1));
    }
    // a six-byte tag holds 48 bits
    let mut tw = writer(20);
    assert_eq!(tw.u8(TagType::FullQual48(1 << 48), 1), Err(Error::InvalidData));
    assert_eq!(tw.start_struct(TagType::FullQual48(1 << 48)), Err(Error::InvalidData));
    assert_eq!(tw.as_slice().len(), 0);
}

#[test]
fn strings_booleans_null_and_containers() {
    let mut tw = writer(400);
    tw.start_struct(TagType::Anonymous).unwrap();
    tw.str8(TagType::Context(0), b"ab").unwrap();
    tw.utf8(TagType::Context(1), b"hi").unwrap();
    tw.bool(TagType::Context(2), true).unwrap();
    tw.bool(TagType::Context(3), false).unwrap();
    tw.null(TagType::Context(4)).unwrap();
    tw.start_array(TagType::Context(5)).unwrap();
    tw.u8(TagType::Anonymous, 1).unwrap();
    tw.end_container().unwrap();
    tw.start_list(TagType::Context(6)).unwrap();
    tw.end_container().unwrap();
    tw.str16(TagType::Context(7), b"x").unwrap();
    tw.utf16(TagType::Context(8), b"y").unwrap();
    tw.octets(TagType::Context(9), &[7; 256]).unwrap();
    tw.end_container().unwrap();
    let bytes = tw.as_slice().to_vec();
    assert_eq!(
        &bytes[..32],
        &[
            0x15, 0x30, 0, 2, b'a', b'b', 0x2c, 1, 2, b'h', b'i', 0x29, 2, 0x28, 3, 0x34, 4, 0x36,
            5, 0x04, 1, 0x18, 0x37, 6, 0x18, 0x31, 7, 1, 0, b'x', 0x2d, 8
        ][..]
    );
    assert_eq!(&bytes[32..39], &[1, 0, b'y', 0x31, 9, 0x00, 0x01]);
    assert_eq!(bytes.len(), 39 + 256 + 1);
    let root = get_root_node_struct(&bytes).unwrap();
    assert_eq!(root.find_tag(0).unwrap().slice().unwrap(), b"ab");
    assert_eq!(root.find_tag(1).unwrap().slice().unwrap(), b"hi");
    assert_eq!(root.find_tag(2).unwrap().bool(), Ok(true));
    assert_eq!(root.find_tag(3).unwrap().bool(), Ok(false));
    assert_eq!(root.find_tag(4).unwrap().bool(), Err(Error::TLVTypeMismatch));
    assert_eq!(root.find_tag(5).unwrap().confirm_array().unwrap().len(), 1);
    assert_eq!(root.find_tag(6).unwrap().confirm_list().unwrap().len(), 0);
    assert_eq!(root.find_tag(9).unwrap().slice().unwrap().len(), 256);
    assert_eq!(root.find_tag(10).err(), Some(Error::NoTagFound));
    assert_eq!(root.find_tag(256).err(), Some(Error::NoTagFound));
    assert_eq!(root.find_tag(2).unwrap().find_tag(0).err(), Some(Error::TLVTypeMismatch));
    assert_eq!(root.find_tag(5).unwrap().confirm_struct().err(), Some(Error::TLVTypeMismatch));
    assert_eq!(root.find_tag(5).unwrap().confirm_list().err(), Some(Error::TLVTypeMismatch));
    assert_eq!(root.find_tag(6).unwrap().confirm_array().err(), Some(Error::TLVTypeMismatch));
    assert_eq!(root.find_tag(0).unwrap().u8(), Err(Error::TLVTypeMismatch));
    assert_eq!(root.find_tag(2).unwrap().slice().err(), Some(Error::TLVTypeMismatch));
    assert!(root.find_tag(0).unwrap().check_ctx_tag(0));
    assert!(!root.find_tag(0).unwrap().check_ctx_tag(1));
    // writing the tree again gives the same bytes
    let mut tw = writer(400);
    tw.element(&root).unwrap();
    assert_eq!(tw.as_slice(), &bytes[..]);
}

#[test]
fn string_writers_refuse_what_their_length_field_cannot_hold() {
    let mut tw = writer(70000);
    assert_eq!(tw.str8(TagType::Anonymous, &[0; 256]), Err(Error::Invalid));
    assert_eq!(tw.utf8(TagType::Anonymous, &[0; 256]), Err(Error::Invalid));
    assert_eq!(tw.str16(TagType::Anonymous, &vec![0; 65536]), Err(Error::Invalid));
    assert_eq!(tw.utf16(TagType::Anonymous, &vec![0; 65536]), Err(Error::Invalid));
    assert_eq!(tw.as_slice().len(), 0);
    tw.str8(TagType::Anonymous, &[0; 255]).unwrap();
    assert_eq!(tw.as_slice().len(), 257);
    tw.octets(TagType::Anonymous, &vec![1; 65536]).unwrap();
    assert_eq!(&tw.as_slice()[257..262], &[0x12, 0, 0, 1, 0]);
}

#[test]
fn accessors_by_width() {
    let one = TLVElement::new_uint(TagType::Anonymous, 0x12);
    let two = TLVElement::new_uint(TagType::Anonymous, 0x1234);
    let four = TLVElement::new_uint(TagType::Anonymous, 0x1234_5678);
    let eight = TLVElement::new_uint(TagType::Anonymous, 0x1234_5678_9abc);
    assert_eq!(one.u8(), Ok(0x12));
    assert_eq!(one.u16(), Ok(0x12));
    assert_eq!(one.u32(), Ok(0x12));
    assert_eq!(one.u64(), Ok(0x12));
    assert_eq!(two.u8(), Err(Error::TLVTypeMismatch));
    assert_eq!(two.u16(), Ok(0x1234));
    assert_eq!(four.u16(), Err(Error::TLVTypeMismatch));
    assert_eq!(four.u32(), Ok(0x1234_5678));
    assert_eq!(eight.u32(), Err(Error::TLVTypeMismatch));
    assert_eq!(eight.u64(), Ok(0x1234_5678_9abc));
    assert_eq!(TLVElement::new_bool(TagType::Anonymous, true).u64(), Err(Error::TLVTypeMismatch));
}

#[test]
fn malformed_input_is_invalid_data() {
    for bad in [
        &[][..],
        &[0x24][..],             // no tag byte
        &[0x24, 1][..],          // no value
        &[0x25, 1, 0][..],       // half a value
        &[0x30, 1, 3, 1, 2][..], // string cut short
        &[0x15, 0x24, 1, 1][..], // container not closed
        &[0x18][..],             // end of container alone
        &[0x19][..],             // reserved type
        &[0x0f, 0, 0, 0, 0, 0, 0, 0, 0][..], // length of eight bytes
        &[0x38][..],             // end of container with a tag
    ] {
        assert_eq!(get_root_node(bad).err(), Some(Error::InvalidData));
    }
    assert_eq!(get_root_node_struct(&[0x16, 0x18]).err(), Some(Error::TLVTypeMismatch));
    // what follows the root is ignored
    let e = get_root_node(&[0x04, 5, 0xff, 0xff]).unwrap();
    assert_eq!(e.u8(), Ok(5));
    assert_eq!(parse_element(&[0x04, 5, 0x04, 6], 2).unwrap().1, 4);
}

#[test]
fn writes_are_whole_or_not_at_all() {
    let mut tw = writer(4);
    tw.u8(TagType::Context(1), 1).unwrap();
    assert_eq!(tw.u16(TagType::Context(2), 0x100), Err(Error::NoSpace));
    assert_eq!(tw.as_slice(), &[0x24, 1, 1]);
    assert_eq!(tw.get_tail(), 3);
    tw.end_container().unwrap();
    assert_eq!(tw.end_container(), Err(Error::NoSpace));
    assert_eq!(tw.start_struct(TagType::Anonymous), Err(Error::NoSpace));
    tw.rewind_to(1);
    assert_eq!(tw.as_slice(), &[0x24]);
    tw.rewind_to(5);
    assert_eq!(tw.as_slice(), &[0x24]);
    // a tree that does not fit leaves nothing behind
    let tree = get_root_node(&[0x15, 0x24, 1, 1, 0x24, 2, 2, 0x18]).unwrap();
    let mut tw = writer(7);
    assert_eq!(tw.element(&tree), Err(Error::NoSpace));
    assert_eq!(tw.as_slice().len(), 0);
    assert_eq!(tw.put_element(&tree), Err(Error::NoSpace));
    assert_eq!(tw.as_slice(), &[0x15, 0x24, 1, 1, 0x24, 2, 2]);
    let mut tw = writer(8);
    tw.put_raw(&[]).unwrap();
    tw.element(&tree).unwrap();
    assert_eq!(tw.put_raw(&[1]), Err(Error::NoSpace));
    let wb = tw.into_buf();
    assert_eq!(wb.as_slice().len(), 8);
}

#[test]
fn tags_of_the_fields_of_a_record() {
    assert_eq!(field_tags(0, &[None, None, None]), Some(vec![0, 1, 2]));
    assert_eq!(field_tags(1, &[None, Some(22), None]), Some(vec![1, 22, 2]));
    assert_eq!(field_tags(254, &[None, None]), Some(vec![254, 255]));
    assert_eq!(field_tags(254, &[None, None, None]), None);
    assert_eq!(field_tags(255, &[Some(0), None, Some(255)]), Some(vec![0, 255, 255]));
    assert_eq!(field_tags(9, &[]), Some(vec![]));
    let args = TlvArgs::default();
    assert_eq!(args.start, 0);
    assert_eq!(args.datatype, RecordKind::Struct);
    assert!(!args.unordered);
    let layout = derive_totlv(&TlvArgs { start: 1, datatype: RecordKind::List, unordered: true }, &[None, None]).unwrap();
    assert_eq!(layout.code, 0x17);
    assert_eq!(layout.tags, vec![1, 2]);
    assert!(layout.unordered);
    assert!(derive_totlv(&TlvArgs { start: 255, ..args }, &[None, None]).is_none());
}

#[test]
fn fields_in_order_and_out_of_order() {
    // members with the tags 2, 1, 3 in this order
    let e = get_root_node(&[0x15, 0x24, 2, 20, 0x24, 1, 10, 0x24, 3, 30, 0x18]).unwrap();
    // in order: field 1 is not at hand, field 2 is, then field 3 is not (member 1 is at hand)
    assert_eq!(match_fields(&e.children, &[1, 2, 3], false), vec![None, Some(0), None]);
    // out of order: each is looked up
    assert_eq!(match_fields(&e.children, &[1, 2, 3], true), vec![Some(1), Some(0), Some(2)]);
    assert_eq!(match_fields(&e.children, &[4], true), vec![None]);
    let ordered = TlvArgs { start: 1, datatype: RecordKind::Struct, unordered: false };
    let unordered = TlvArgs { unordered: true, ..ordered };
    assert_eq!(derive_fromtlv(&ordered, &[None, None, None], &e), Ok(vec![None, Some(0), None]));
    assert_eq!(
        derive_fromtlv(&unordered, &[None, None, None], &e),
        Ok(vec![Some(1), Some(0), Some(2)])
    );
    // a field with a tag of its own
    assert_eq!(derive_fromtlv(&unordered, &[Some(3), None], &e), Ok(vec![Some(2), Some(1)]));
    let list = TlvArgs { datatype: RecordKind::List, ..ordered };
    assert_eq!(derive_fromtlv(&list, &[None], &e), Err(Error::TLVTypeMismatch));
    // out of order the fields are looked up in whatever the element is
    let any = TlvArgs { unordered: true, ..list };
    assert_eq!(derive_fromtlv(&any, &[None, None], &e), Ok(vec![Some(1), Some(0)]));
    let leaf = get_root_node(&[0x04, 7]).unwrap();
    assert_eq!(derive_fromtlv(&any, &[None, None], &leaf), Ok(vec![None, None]));
    assert_eq!(derive_fromtlv(&list, &[None, None], &leaf), Err(Error::TLVTypeMismatch));
    assert_eq!(
        derive_fromtlv(&TlvArgs { start: 255, ..ordered }, &[None, None], &e),
        Err(Error::Invalid)
    );
}

fn arg(name: &str, value: ArgLit) -> TlvArg {
    TlvArg { name: name.as_bytes().to_vec(), value }
}

fn text(t: &str) -> ArgLit {
    ArgLit::Str(t.as_bytes().to_vec())
}

#[test]
fn options_of_a_record() {
    let plain = TlvArgs { start: 0, datatype: RecordKind::Struct, unordered: false };
    assert_eq!(parse_tlvargs(&[]), Ok(plain));
    assert_eq!(
        parse_tlvargs(&[arg("start", ArgLit::Int(1)), arg("datatype", text("list"))]),
        Ok(TlvArgs { start: 1, datatype: RecordKind::List, unordered: false })
    );
    assert_eq!(
        parse_tlvargs(&[
            arg("lifetime", text("'a")),
            arg("start", ArgLit::Int(1)),
            arg("datatype", text("list")),
            arg("unordered", ArgLit::Other),
        ]),
        Ok(TlvArgs { start: 1, datatype: RecordKind::List, unordered: true })
    );
    // the last word counts
    assert_eq!(
        parse_tlvargs(&[
            arg("start", ArgLit::Int(1)),
            arg("datatype", text("list")),
            arg("start", ArgLit::Int(7)),
            arg("datatype", text("struct")),
        ]),
        Ok(TlvArgs { start: 7, ..plain })
    );
    // a value of another form, or another name, changes nothing
    assert_eq!(
        parse_tlvargs(&[
            arg("start", text("1")),
            arg("datatype", ArgLit::Int(3)),
            arg("Start", ArgLit::Int(3)),
            arg("starts", ArgLit::Int(3)),
            arg("", ArgLit::Int(3)),
        ]),
        Ok(plain)
    );
    assert_eq!(parse_tlvargs(&[arg("unordered", ArgLit::Int(0))]), Ok(TlvArgs { unordered: true, ..plain }));
    // a text that names no container
    assert_eq!(parse_tlvargs(&[arg("datatype", text("array"))]), Err(Error::Invalid));
    assert_eq!(
        parse_tlvargs(&[arg("datatype", text("lists")), arg("datatype", text("list"))]),
        Err(Error::Invalid)
    );
}

#[test]
fn tag_of_a_field_of_its_own() {
    assert_eq!(parse_tag_val(&[]), None);
    assert_eq!(parse_tag_val(&[ArgLit::Int(22)]), Some(22));
    assert_eq!(parse_tag_val(&[text("22"), ArgLit::Other]), None);
    assert_eq!(parse_tag_val(&[ArgLit::Other, ArgLit::Int(5), ArgLit::Int(6)]), Some(5));
    // the options and the tags of the fields give the layout of the record
    let args = parse_tlvargs(&[arg("start", ArgLit::Int(1))]).unwrap();
    let tags = [parse_tag_val(&[]), parse_tag_val(&[ArgLit::Int(22)]), parse_tag_val(&[])];
    let layout = derive_totlv(&args, &tags).unwrap();
    assert_eq!(layout.code, 0x15);
    assert_eq!(layout.tags, vec![1, 22, 2]);
}
