//! Writing the parts of a certificate as TLV.

use vstd::prelude::*;
use crate::cert::model::{
    basic_const_elem, cert_elem, dn_elem, dn_members, extensions_elem, extensions_fields,
    u8_array_elem, BasicConstraints,
};
use crate::tlv::model::container;
use crate::tlv::record::{
    derive_totlv, lemma_record_tags_untagged, no_overrides, opt_member, present, start_record,
    RecordKind, TlvArgs,
};
use crate::cert::{Cert, DistNames, Extensions};
use crate::error::Error;
use crate::tlv::model::{
    elem_bytes, elems_bytes, header_bytes, Elem, TagType, END_OF_CONTAINER, TYPE_ARRAY, TYPE_LIST,
    TYPE_STRUCT,
};
use crate::tlv::writer::{
    bool_elem, composite_outcome, lemma_container_bytes, lemma_end_written, lemma_field_written,
    lemma_header_written, lemma_member_written, lemma_members_step, lemma_too_long, member_outcome,
    uint_elem, TLVWriter,
};

verus! {

/// What holds while the members of a container are written: the bytes so
/// far are the bytes before, the header and the members done.
pub open spec fn members_written(
    before: Seq<u8>,
    tag: TagType,
    code: u8,
    done: Seq<Elem>,
    now: Seq<u8>,
) -> bool {
    now == before + header_bytes(tag, code) + elems_bytes(done)
}

impl DistNames {
    /// Writes the names as a list, each as an unsigned number under the
    /// context tag of its kind, in order.
    pub fn to_tlv(&self, tw: &mut TLVWriter, tag: TagType) -> (r: Result<(), Error>)
        ensures
            final(tw).capacity() == old(tw).capacity(),
            composite_outcome(
                tag,
                old(tw)@,
                old(tw).capacity(),
                elem_bytes(dn_elem(tag, self@)),
                r,
                final(tw)@,
            ),
    {
        let ghost members = dn_members(self@);
        let ghost all = elem_bytes(dn_elem(tag, self@));
        proof {
            lemma_container_bytes(tag, TYPE_LIST, members);
        }
        tw.start_list(tag)?;
        let mut i: usize = 0;
        proof {
            assert(members.subrange(0, 0) =~= Seq::<Elem>::empty());
            assert(members.subrange(0, members.len() as int) =~= members);
        }
        while i < self.dn.len()
            invariant
                i <= self.dn.len(),
                tag.wf(),
                members == dn_members(self@),
                members.len() == self.dn.len(),
                tw.capacity() == old(tw).capacity(),
                all == header_bytes(tag, TYPE_LIST) + elems_bytes(members) + seq![
                    END_OF_CONTAINER,
                ],
                members_written(old(tw)@, tag, TYPE_LIST, members.subrange(0, i as int), tw@),
            decreases self.dn.len() - i,
        {
            let ghost done = members.subrange(0, i as int);
            let ghost ahead = members.subrange(i as int, members.len() as int);
            proof {
                lemma_members_step(done, ahead);
                assert(done + ahead =~= members);
                assert(done.push(ahead[0]) =~= members.subrange(0, i + 1));
                assert(ahead[0] == uint_elem(TagType::Context(self.dn@[i as int].0), self.dn@[i as int].1));
            }
            let (kind, value) = self.dn[i];
            let ghost mid = tw@;
            match tw.u64(TagType::Context(kind), value) {
                Ok(()) => {},
                Err(e) => {
                    proof {
                        let rest = elems_bytes(ahead.subrange(1, ahead.len() as int)) + seq![
                            END_OF_CONTAINER,
                        ];
                        assert(old(tw)@ + all =~= mid + elem_bytes(ahead[0]) + rest);
                        lemma_too_long(old(tw)@, all, mid, elem_bytes(ahead[0]), rest);
                    }
                    return Err(e);
                },
            }
            i = i + 1;
            assert(tw@ =~= old(tw)@ + header_bytes(tag, TYPE_LIST) + elems_bytes(
                members.subrange(0, i as int),
            ));
        }
        let ghost mid = tw@;
        let r = tw.end_container();
        proof {
            assert(mid + seq![END_OF_CONTAINER] =~= old(tw)@ + all);
        }
        r
    }
}

} // verus!

verus! {

/// The members of an array of small numbers.
pub open spec fn u8_members(s: Seq<u8>) -> Seq<Elem> {
    Seq::new(s.len(), |i: int| uint_elem(TagType::Anonymous, s[i] as u64))
}

/// Writes small numbers as an array of anonymous members.
pub fn u8_array_to_tlv(list: &Vec<u8>, tw: &mut TLVWriter, tag: TagType) -> (r: Result<(), Error>)
    ensures
        final(tw).capacity() == old(tw).capacity(),
        composite_outcome(
            tag,
            old(tw)@,
            old(tw).capacity(),
            elem_bytes(u8_array_elem(tag, list@)),
            r,
            final(tw)@,
        ),
{
    let ghost members = u8_members(list@);
    let ghost all = elem_bytes(u8_array_elem(tag, list@));
    let ghost header = header_bytes(tag, TYPE_ARRAY);
    let ghost cap = tw.capacity();
    let r0 = tw.start_array(tag);
    proof {
        assert(u8_array_elem(tag, list@) == container(tag, TYPE_ARRAY, members));
        lemma_header_written(tag, TYPE_ARRAY, members, old(tw)@, cap, r0, tw@);
        lemma_container_bytes(tag, TYPE_ARRAY, members);
    }
    if r0.is_err() {
        return r0;
    }
    let mut i: usize = 0;
    proof {
        assert(members.subrange(0, 0) =~= Seq::<Elem>::empty());
    }
    while i < list.len()
        invariant
            i <= list.len(),
            tag.wf(),
            members == u8_members(list@),
            cap == old(tw).capacity(),
            tw.capacity() == cap,
            header == header_bytes(tag, TYPE_ARRAY),
            all == elem_bytes(u8_array_elem(tag, list@)),
            all == header + elems_bytes(members) + seq![END_OF_CONTAINER],
            tw@ == old(tw)@ + header + elems_bytes(members.subrange(0, i as int)),
        decreases list.len() - i,
    {
        let ghost done = members.subrange(0, i as int);
        let ghost ahead = members.subrange(i as int, members.len() as int);
        let ghost mid = tw@;
        let r1 = tw.u8(TagType::Anonymous, list[i]);
        proof {
            assert(done + ahead =~= members);
            assert(ahead[0] == uint_elem(TagType::Anonymous, list@[i as int] as u64));
            lemma_member_written(old(tw)@, cap, all, header, done, ahead, mid, r1, tw@);
            assert(done.push(ahead[0]) =~= members.subrange(0, i + 1));
        }
        if r1.is_err() {
            return r1;
        }
        i = i + 1;
    }
    let ghost mid = tw@;
    let r2 = tw.end_container();
    proof {
        assert(members.subrange(0, i as int) =~= members);
        lemma_end_written(tag, TYPE_ARRAY, members, old(tw)@, cap, mid, r2, tw@);
    }
    r2
}

impl BasicConstraints {
    /// Writes the constraints as a structure: the CA flag under tag 1 and,
    /// where there is one, the path length under tag 2.
    pub fn to_tlv(&self, tw: &mut TLVWriter, tag: TagType) -> (r: Result<(), Error>)
        ensures
            final(tw).capacity() == old(tw).capacity(),
            composite_outcome(
                tag,
                old(tw)@,
                old(tw).capacity(),
                elem_bytes(basic_const_elem(tag, *self)),
                r,
                final(tw)@,
            ),
    {
        let ghost f0 = bool_elem(TagType::Context(1), self.is_ca);
        let ghost f1 = opt_member(
            match self.path {
                Some(p) => Some(uint_elem(TagType::Context(2), p as u64)),
                None => None,
            },
        );
        let ghost members = seq![f0] + f1;
        let ghost all = elem_bytes(basic_const_elem(tag, *self));
        let ghost header = header_bytes(tag, TYPE_STRUCT);
        let ghost cap = tw.capacity();
        let ghost before = tw@;
        let args = TlvArgs { start: 1, datatype: RecordKind::Struct, unordered: false };
        let overrides = no_overrides(2);
        proof {
            lemma_record_tags_untagged(1, 2);
        }
        let layout = match derive_totlv(&args, overrides.as_slice()) {
            Some(l) => l,
            None => {
                return Err(Error::Invalid);
            },
        };
        let r0 = start_record(tw, args.datatype, tag);
        proof {
            lemma_header_written(tag, TYPE_STRUCT, members, before, cap, r0, tw@);
            lemma_container_bytes(tag, TYPE_STRUCT, members);
        }
        if r0.is_err() {
            return r0;
        }
        let ghost mid = tw@;
        let ghost done = Seq::<Elem>::empty();
        let r1 = tw.bool(TagType::Context(layout.tags[0]), self.is_ca);
        proof {
            assert(done + members =~= members);
            lemma_member_written(before, cap, all, header, done, members, mid, r1, tw@);
        }
        if r1.is_err() {
            return r1;
        }
        let ghost done = done.push(f0);
        proof {
            assert(members.subrange(1, members.len() as int) =~= f1);
        }
        match self.path {
            Some(p) => {
                let ghost mid = tw@;
                let r2 = tw.u8(TagType::Context(layout.tags[1]), p);
                proof {
                    lemma_member_written(before, cap, all, header, done, f1, mid, r2, tw@);
                    assert(done.push(f1[0]) =~= members);
                }
                if r2.is_err() {
                    return r2;
                }
            },
            None => {
                assert(done =~= members);
            },
        }
        let ghost mid = tw@;
        let r3 = tw.end_container();
        proof {
            lemma_end_written(tag, TYPE_STRUCT, members, before, cap, mid, r3, tw@);
        }
        r3
    }
}

} // verus!

verus! {

fn opt_octets_to_tlv(v: &Option<Vec<u8>>, tw: &mut TLVWriter, n: u8) -> (r: Result<(), Error>)
    requires
        crate::cert::model::opt_fits_tlv(crate::cert::opt_bytes(*v)),
    ensures
        final(tw).capacity() == old(tw).capacity(),
        match crate::cert::model::opt_octets(n, crate::cert::opt_bytes(*v)) {
            Some(x) => member_outcome(old(tw)@, old(tw).capacity(), elem_bytes(x), r, final(tw)@),
            None => r is Ok && final(tw)@ == old(tw)@,
        },
{
    match v {
        Some(data) => tw.octets(TagType::Context(n), data.as_slice()),
        None => Ok(()),
    }
}

impl Extensions {
    /// Writes the extensions as a list: each one that is present under its
    /// context tag, 1 to 6 in declared order. Byte strings of four
    /// gigabytes or more are not written: the write fails with `Invalid`
    /// and writes nothing.
    pub fn to_tlv(&self, tw: &mut TLVWriter, tag: TagType) -> (r: Result<(), Error>)
        ensures
            final(tw).capacity() == old(tw).capacity(),
            self@.wf() ==> composite_outcome(
                tag,
                old(tw)@,
                old(tw).capacity(),
                elem_bytes(extensions_elem(tag, self@)),
                r,
                final(tw)@,
            ),
            !self@.wf() ==> r == Err::<(), Error>(Error::Invalid) && final(tw)@ == old(tw)@,
    {
        if !self.fits() {
            return Err(Error::Invalid);
        }
        let ghost fields = extensions_fields(self@);
        let ghost cap = tw.capacity();
        let ghost before = tw@;
        let args = TlvArgs { start: 1, datatype: RecordKind::List, unordered: false };
        let overrides = no_overrides(6);
        proof {
            lemma_record_tags_untagged(1, 6);
        }
        let layout = match derive_totlv(&args, overrides.as_slice()) {
            Some(l) => l,
            None => {
                return Err(Error::Invalid);
            },
        };
        let r0 = start_record(tw, args.datatype, tag);
        proof {
            lemma_header_written(tag, TYPE_LIST, present(fields), before, cap, r0, tw@);
            assert(fields.subrange(0, 0) =~= Seq::<Option<Elem>>::empty());
        }
        if r0.is_err() {
            return r0;
        }
        let ghost mid = tw@;
        let r1 = match &self.basic_const {
            Some(bc) => bc.to_tlv(tw, TagType::Context(layout.tags[0])),
            None => Ok(()),
        };
        proof {
            lemma_field_written(before, cap, tag, TYPE_LIST, fields, 0, mid, r1, tw@);
        }
        if r1.is_err() {
            return r1;
        }
        let ghost mid = tw@;
        let r2 = match self.key_usage {
            Some(k) => tw.u16(TagType::Context(layout.tags[1]), k),
            None => Ok(()),
        };
        proof {
            lemma_field_written(before, cap, tag, TYPE_LIST, fields, 1, mid, r2, tw@);
        }
        if r2.is_err() {
            return r2;
        }
        let ghost mid = tw@;
        let r3 = match &self.ext_key_usage {
            Some(l) => u8_array_to_tlv(l, tw, TagType::Context(layout.tags[2])),
            None => Ok(()),
        };
        proof {
            lemma_field_written(before, cap, tag, TYPE_LIST, fields, 2, mid, r3, tw@);
        }
        if r3.is_err() {
            return r3;
        }
        let ghost mid = tw@;
        let r4 = opt_octets_to_tlv(&self.subj_key_id, tw, layout.tags[3]);
        proof {
            lemma_field_written(before, cap, tag, TYPE_LIST, fields, 3, mid, r4, tw@);
        }
        if r4.is_err() {
            return r4;
        }
        let ghost mid = tw@;
        let r5 = opt_octets_to_tlv(&self.auth_key_id, tw, layout.tags[4]);
        proof {
            lemma_field_written(before, cap, tag, TYPE_LIST, fields, 4, mid, r5, tw@);
        }
        if r5.is_err() {
            return r5;
        }
        let ghost mid = tw@;
        let r6 = opt_octets_to_tlv(&self.future_extensions, tw, layout.tags[5]);
        proof {
            lemma_field_written(before, cap, tag, TYPE_LIST, fields, 5, mid, r6, tw@);
            assert(fields.subrange(0, 6) =~= fields);
        }
        if r6.is_err() {
            return r6;
        }
        let ghost mid = tw@;
        let r7 = tw.end_container();
        proof {
            lemma_end_written(tag, TYPE_LIST, present(fields), before, cap, mid, r7, tw@);
        }
        r7
    }
}

} // verus!

verus! {

impl Extensions {
    /// Whether every byte string fits a TLV length field.
    pub fn fits(&self) -> (b: bool)
        ensures
            b == self@.wf(),
    {
        (match &self.subj_key_id {
            Some(v) => (v.len() as u64) < 0x1_0000_0000,
            None => true,
        }) && (match &self.auth_key_id {
            Some(v) => (v.len() as u64) < 0x1_0000_0000,
            None => true,
        }) && (match &self.future_extensions {
            Some(v) => (v.len() as u64) < 0x1_0000_0000,
            None => true,
        })
    }
}

impl Cert {
    /// Whether every byte string fits a TLV length field.
    pub fn fits(&self) -> (b: bool)
        ensures
            b == self@.wf(),
    {
        (self.serial_no.len() as u64) < 0x1_0000_0000 && (self.pubkey.len() as u64)
            < 0x1_0000_0000 && (self.signature.len() as u64) < 0x1_0000_0000
            && self.extensions.fits()
    }

    /// Writes the certificate as a structure: its eleven fields under the
    /// context tags 1 to 11, numbers and strings in the narrowest form that
    /// holds them. A certificate with a byte string of four gigabytes or
    /// more is not written: the write fails with `Invalid` and writes
    /// nothing.
    pub fn to_tlv(&self, tw: &mut TLVWriter, tag: TagType) -> (r: Result<(), Error>)
        ensures
            final(tw).capacity() == old(tw).capacity(),
            self@.wf() ==> composite_outcome(
                tag,
                old(tw)@,
                old(tw).capacity(),
                elem_bytes(cert_elem(tag, self@)),
                r,
                final(tw)@,
            ),
            !self@.wf() ==> r == Err::<(), Error>(Error::Invalid) && final(tw)@ == old(tw)@,
    {
        if !self.fits() {
            return Err(Error::Invalid);
        }
        let ghost fields = crate::cert::model::cert_fields(self@);
        let ghost cap = tw.capacity();
        let ghost before = tw@;
        let args = TlvArgs { start: 1, datatype: RecordKind::Struct, unordered: false };
        let overrides = no_overrides(11);
        proof {
            lemma_record_tags_untagged(1, 11);
        }
        let layout = match derive_totlv(&args, overrides.as_slice()) {
            Some(l) => l,
            None => {
                return Err(Error::Invalid);
            },
        };
        let r0 = start_record(tw, args.datatype, tag);
        proof {
            lemma_header_written(tag, TYPE_STRUCT, present(fields), before, cap, r0, tw@);
            assert(fields.subrange(0, 0) =~= Seq::<Option<Elem>>::empty());
        }
        if r0.is_err() {
            return r0;
        }
        let ghost mid = tw@;
        let r1 = tw.octets(TagType::Context(layout.tags[0]), self.serial_no.as_slice());
        proof {
            lemma_field_written(before, cap, tag, TYPE_STRUCT, fields, 0, mid, r1, tw@);
        }
        if r1.is_err() {
            return r1;
        }
        let ghost mid = tw@;
        let r2 = tw.u8(TagType::Context(layout.tags[1]), self.sign_algo);
        proof {
            lemma_field_written(before, cap, tag, TYPE_STRUCT, fields, 1, mid, r2, tw@);
        }
        if r2.is_err() {
            return r2;
        }
        let ghost mid = tw@;
        let r3 = self.issuer.to_tlv(tw, TagType::Context(layout.tags[2]));
        proof {
            lemma_field_written(before, cap, tag, TYPE_STRUCT, fields, 2, mid, r3, tw@);
        }
        if r3.is_err() {
            return r3;
        }
        let ghost mid = tw@;
        let r4 = tw.u32(TagType::Context(layout.tags[3]), self.not_before);
        proof {
            lemma_field_written(before, cap, tag, TYPE_STRUCT, fields, 3, mid, r4, tw@);
        }
        if r4.is_err() {
            return r4;
        }
        let ghost mid = tw@;
        let r5 = tw.u32(TagType::Context(layout.tags[4]), self.not_after);
        proof {
            lemma_field_written(before, cap, tag, TYPE_STRUCT, fields, 4, mid, r5, tw@);
        }
        if r5.is_err() {
            return r5;
        }
        let ghost mid = tw@;
        let r6 = self.subject.to_tlv(tw, TagType::Context(layout.tags[5]));
        proof {
            lemma_field_written(before, cap, tag, TYPE_STRUCT, fields, 5, mid, r6, tw@);
        }
        if r6.is_err() {
            return r6;
        }
        let ghost mid = tw@;
        let r7 = tw.u8(TagType::Context(layout.tags[6]), self.pubkey_algo);
        proof {
            lemma_field_written(before, cap, tag, TYPE_STRUCT, fields, 6, mid, r7, tw@);
        }
        if r7.is_err() {
            return r7;
        }
        let ghost mid = tw@;
        let r8 = tw.u8(TagType::Context(layout.tags[7]), self.ec_curve_id);
        proof {
            lemma_field_written(before, cap, tag, TYPE_STRUCT, fields, 7, mid, r8, tw@);
        }
        if r8.is_err() {
            return r8;
        }
        let ghost mid = tw@;
        let r9 = tw.octets(TagType::Context(layout.tags[8]), self.pubkey.as_slice());
        proof {
            lemma_field_written(before, cap, tag, TYPE_STRUCT, fields, 8, mid, r9, tw@);
        }
        if r9.is_err() {
            return r9;
        }
        let ghost mid = tw@;
        let r10 = self.extensions.to_tlv(tw, TagType::Context(layout.tags[9]));
        proof {
            lemma_field_written(before, cap, tag, TYPE_STRUCT, fields, 9, mid, r10, tw@);
        }
        if r10.is_err() {
            return r10;
        }
        let ghost mid = tw@;
        let r11 = tw.octets(TagType::Context(layout.tags[10]), self.signature.as_slice());
        proof {
            lemma_field_written(before, cap, tag, TYPE_STRUCT, fields, 10, mid, r11, tw@);
            assert(fields.subrange(0, 11) =~= fields);
        }
        if r11.is_err() {
            return r11;
        }
        let ghost mid = tw@;
        let r12 = tw.end_container();
        proof {
            lemma_end_written(tag, TYPE_STRUCT, present(fields), before, cap, mid, r12, tw@);
        }
        r12
    }

    /// Writes the certificate in Matter TLV to the front of `buf` and
    /// returns the number of bytes written; the rest of `buf` stays as it
    /// is. Where the bytes do not fit it fails with `NoSpace`; a
    /// certificate with a byte string of four gigabytes or more fails with
    /// `Invalid`. On failure `buf` is unchanged.
    pub fn as_tlv(&self, buf: &mut [u8]) -> (r: Result<usize, Error>)
        ensures
            final(buf)@.len() == old(buf)@.len(),
            !self@.wf() ==> r == Err::<usize, Error>(Error::Invalid) && final(buf)@ == old(buf)@,
            self@.wf() && crate::cert::model::cert_bytes(self@).len() > old(buf)@.len() ==> r
                == Err::<usize, Error>(Error::NoSpace) && final(buf)@ == old(buf)@,
            self@.wf() && crate::cert::model::cert_bytes(self@).len() <= old(buf)@.len() ==> {
                &&& r == Ok::<usize, Error>(crate::cert::model::cert_bytes(self@).len() as usize)
                &&& final(buf)@ == crate::cert::model::cert_bytes(self@) + old(buf)@.subrange(
                    crate::cert::model::cert_bytes(self@).len() as int,
                    old(buf)@.len() as int,
                )
            },
    {
        let wb = crate::utils::writebuf::WriteBuf::new(buf.len());
        let mut tw = TLVWriter::new(wb);
        match self.to_tlv(&mut tw, TagType::Anonymous) {
            Err(e) => Err(e),
            Ok(()) => {
                let out = tw.as_slice();
                assert(Seq::<u8>::empty() + crate::cert::model::cert_bytes(self@) =~= out@);
                crate::utils::bytes::copy_into(buf, out);
                Ok(out.len())
            },
        }
    }
}

} // verus!
