//! Reading and writing TLV are inverse to each other.

use vstd::prelude::*;
use crate::tlv::model::{
    all_wf, control_byte, elem_bytes, elems_bytes, header_bytes, is_container, is_element_code,
    is_scalar, is_string, lemma_header_len, lemma_tag_of_bytes, lemma_tag_round_trip, len_size,
    parse_elem, parse_elems, scalar_size, tag_size, Elem, TagType, END_OF_CONTAINER,
};
use crate::utils::bytes::{
    le_bytes, lemma_le_bytes_len, lemma_le_bytes_of_value, lemma_le_value_bound,
    lemma_le_value_of_bytes, lemma_pow256_values,
};

verus! {

/// The control byte splits back into the tag form and the element type.
pub proof fn lemma_control_byte(tag: TagType, code: u8)
    requires
        code < 32,
    ensures
        (control_byte(tag, code) / 32) as nat == tag.form(),
        (control_byte(tag, code) % 32) as u8 == code,
        is_element_code(code) ==> control_byte(tag, code) != END_OF_CONTAINER,
{
}

/// Reading what a well-formed element was written as gives the element
/// back, whatever follows it.
pub proof fn lemma_parse_of_bytes(e: Elem, rest: Seq<u8>)
    requires
        e.wf(),
    ensures
        parse_elem(elem_bytes(e) + rest) == Some((e, elem_bytes(e).len() as int)),
    decreases e,
{
    let b = elem_bytes(e) + rest;
    let hb = header_bytes(e.tag, e.code);
    let ts = tag_size(e.tag.form());
    let h: int = 1 + ts as int;
    lemma_header_len(e.tag, e.code);
    lemma_control_byte(e.tag, e.code);
    lemma_tag_round_trip(e.tag);
    lemma_le_bytes_len(e.tag.number(), ts);
    lemma_le_value_of_bytes(e.tag.number(), ts);
    lemma_pow256_values();
    assert(b[0] == control_byte(e.tag, e.code));
    assert(b.subrange(1, h) =~= le_bytes(e.tag.number(), ts));
    if is_scalar(e.code) {
        let n = scalar_size(e.code);
        lemma_le_bytes_len(e.num as nat, n);
        lemma_le_value_of_bytes(e.num as nat, n);
        assert(b.subrange(h, h + n) =~= le_bytes(e.num as nat, n));
        assert(e.data =~= Seq::<u8>::empty());
        assert(e.children =~= Seq::<Elem>::empty());
    } else if is_string(e.code) {
        let k = len_size(e.code);
        lemma_le_bytes_len(e.data.len(), k);
        lemma_le_value_of_bytes(e.data.len(), k);
        assert(b.subrange(h, h + k) =~= le_bytes(e.data.len(), k));
        assert(b.subrange(h + k, h + k + e.data.len()) =~= e.data);
        assert(e.children =~= Seq::<Elem>::empty());
    } else if is_container(e.code) {
        lemma_parse_elems_of_bytes(e.children, rest);
        assert(b.subrange(h, b.len() as int) =~= elems_bytes(e.children) + seq![END_OF_CONTAINER]
            + rest);
        assert(e.data =~= Seq::<u8>::empty());
    } else {
        assert(e.data =~= Seq::<u8>::empty());
        assert(e.children =~= Seq::<Elem>::empty());
    }
}

/// Reading what the members of a container were written as, end byte
/// included, gives the members back.
pub proof fn lemma_parse_elems_of_bytes(s: Seq<Elem>, rest: Seq<u8>)
    requires
        all_wf(s),
    ensures
        parse_elems(elems_bytes(s) + seq![END_OF_CONTAINER] + rest) == Some(
            (s, elems_bytes(s).len() as int + 1),
        ),
    decreases s,
{
    let b = elems_bytes(s) + seq![END_OF_CONTAINER] + rest;
    if s.len() == 0 {
        assert(b[0] == END_OF_CONTAINER);
        assert(s =~= Seq::<Elem>::empty());
    } else {
        let e = s[0];
        let tail = s.subrange(1, s.len() as int);
        let after = elems_bytes(tail) + seq![END_OF_CONTAINER] + rest;
        assert(e.wf());
        assert(all_wf(tail)) by {
            assert forall|i: int| 0 <= i < tail.len() implies (#[trigger] tail[i]).wf() by {
                assert(tail[i] == s[i + 1]);
            }
        }
        lemma_header_len(e.tag, e.code);
        lemma_control_byte(e.tag, e.code);
        assert(b =~= elem_bytes(e) + after);
        assert(elem_bytes(e)[0] == control_byte(e.tag, e.code));
        assert(b[0] != END_OF_CONTAINER);
        lemma_parse_of_bytes(e, after);
        let n = elem_bytes(e).len() as int;
        assert(b.subrange(n, b.len() as int) =~= after);
        lemma_parse_elems_of_bytes(tail, rest);
        assert(seq![e] + tail =~= s);
    }
}

/// What was read from the front of a byte string is well formed and is
/// written as exactly the bytes that were read.
pub proof fn lemma_bytes_of_parse(b: Seq<u8>)
    requires
        parse_elem(b) is Some,
    ensures
        parse_elem(b)->Some_0.0.wf(),
        0 < parse_elem(b)->Some_0.1 <= b.len(),
        elem_bytes(parse_elem(b)->Some_0.0) == b.subrange(0, parse_elem(b)->Some_0.1),
    decreases b.len(), 0nat,
{
    let (e, total) = parse_elem(b)->Some_0;
    let form = (b[0] / 32) as nat;
    let code = (b[0] % 32) as u8;
    let ts = tag_size(form);
    let h: int = 1 + ts as int;
    let tagb = b.subrange(1, h);
    lemma_pow256_values();
    lemma_tag_of_bytes(form, tagb);
    lemma_le_bytes_of_value(tagb);
    lemma_header_len(e.tag, e.code);
    assert(control_byte(e.tag, e.code) == b[0]);
    assert(header_bytes(e.tag, e.code) =~= b.subrange(0, h));
    if is_scalar(code) {
        let n = scalar_size(code);
        let vb = b.subrange(h, h + n);
        lemma_le_value_bound(vb);
        lemma_le_bytes_of_value(vb);
        assert(elem_bytes(e) =~= b.subrange(0, total));
    } else if is_string(code) {
        let k = len_size(code);
        let lb = b.subrange(h, h + k);
        lemma_le_value_bound(lb);
        lemma_le_bytes_of_value(lb);
        assert(elem_bytes(e) =~= b.subrange(0, total));
    } else if is_container(code) {
        let inner = b.subrange(h, b.len() as int);
        lemma_bytes_of_parse_elems(inner);
        let (cs, n) = parse_elems(inner)->Some_0;
        assert(inner.subrange(0, n) =~= b.subrange(h, h + n));
        assert(elem_bytes(e) =~= b.subrange(0, total));
    } else {
        assert(elem_bytes(e) =~= b.subrange(0, total));
    }
}

/// What was read as the members of a container is well formed and is
/// written, with the end byte, as exactly the bytes that were read.
pub proof fn lemma_bytes_of_parse_elems(b: Seq<u8>)
    requires
        parse_elems(b) is Some,
    ensures
        all_wf(parse_elems(b)->Some_0.0),
        0 < parse_elems(b)->Some_0.1 <= b.len(),
        elems_bytes(parse_elems(b)->Some_0.0) + seq![END_OF_CONTAINER] == b.subrange(
            0,
            parse_elems(b)->Some_0.1,
        ),
    decreases b.len(), 1nat,
{
    let (s, total) = parse_elems(b)->Some_0;
    if b[0] == END_OF_CONTAINER {
        assert(elems_bytes(s) + seq![END_OF_CONTAINER] =~= b.subrange(0, 1));
    } else {
        lemma_bytes_of_parse(b);
        let (e, n) = parse_elem(b)->Some_0;
        let after = b.subrange(n, b.len() as int);
        lemma_bytes_of_parse_elems(after);
        let (rest, m) = parse_elems(after)->Some_0;
        assert(s == seq![e] + rest);
        assert(s[0] == e);
        assert(s.subrange(1, s.len() as int) =~= rest);
        assert(after.subrange(0, m) =~= b.subrange(n, n + m));
        assert(elems_bytes(s) == elem_bytes(e) + elems_bytes(rest));
        assert(total == n + m);
        assert(b.subrange(0, total) =~= b.subrange(0, n) + b.subrange(n, n + m));
        assert(elems_bytes(s) + seq![END_OF_CONTAINER] =~= elem_bytes(e) + (elems_bytes(rest)
            + seq![END_OF_CONTAINER]));
        assert forall|i: int| 0 <= i < s.len() implies (#[trigger] s[i]).wf() by {
            if i > 0 {
                assert(s[i] == rest[i - 1]);
            }
        }
    }
}

} // verus!

verus! {

/// Writing a well-formed element, reading it back and writing it again
/// gives the bytes of the first writing: reading gives the element itself.
pub proof fn law_element_round_trip(e: Elem)
    requires
        e.wf(),
    ensures
        parse_elem(elem_bytes(e)) == Some((e, elem_bytes(e).len() as int)),
        elem_bytes(parse_elem(elem_bytes(e))->Some_0.0) == elem_bytes(e),
{
    lemma_parse_of_bytes(e, Seq::<u8>::empty());
    assert(elem_bytes(e) + Seq::<u8>::empty() =~= elem_bytes(e));
}

/// Whatever is read from a byte string is written as the very bytes it
/// was read from.
pub proof fn law_bytes_round_trip(b: Seq<u8>)
    requires
        parse_elem(b) is Some,
    ensures
        elem_bytes(parse_elem(b)->Some_0.0) == b.subrange(0, parse_elem(b)->Some_0.1),
{
    lemma_bytes_of_parse(b);
}

} // verus!
