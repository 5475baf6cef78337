//! Writing the parts of a certificate as DER.
//!
//! A part opens scopes, one inside the other. Each function here first
//! makes sure that as many scopes as its part takes can still be opened:
//! where they cannot, it fails with `NoSpace` and writes nothing.

use vstd::prelude::*;
use crate::cert::asn1_writer::{
    emit_outcome, lemma_scope_closed, nested_outcome, scope_closed, scope_opened, ASN1Writer,
    Asn1View, MAX_DEPTH,
};
use crate::cert::der::{
    bitstr_content, cat_opt, der_len_bytes, der_tlv, integer_content, tlv_opt, utctime_content,
    TAG_BIT_STRING, TAG_INTEGER, TAG_OCTET_STRING, TAG_OID, TAG_SEQUENCE, TAG_SET, TAG_UTC_TIME,
    TAG_UTF8_STRING,
};
use crate::cert::der_cert::{
    algorithms_known, oid_ec_type_prime256v1, oid_ecdsa_with_sha256, oid_pub_key_ecpubkey,
    pubkey_algo_der, pubkey_der, sign_algo_der, tbs_content, tbs_der, validity_der, version_der,
    auth_key_id_body, basic_const_body, der_true, dn_der, dn_entries_der, dn_entry_der,
    dn_value_text, ext_key_usage_body, extension_der, extensions_der, extensions_list_der,
    hex_digit, hex_upper, is_matter_dn, optional_der,
    key_purpose_arc, key_purposes_der, key_usage_body, oid_extension, oid_key_purpose,
    oid_matter_dn, subj_key_id_body, EXT_AUTH_KEY_ID, EXT_BASIC_CONSTRAINTS, EXT_EXT_KEY_USAGE,
    EXT_KEY_USAGE, EXT_SUBJ_KEY_IDENTIFIER,
};
use crate::cert::model::{BasicConstraints, CertModel};
use crate::cert::{Cert, DistNames, Extensions};
use crate::error::Error;

verus! {

/// What holds inside a scope that was opened in state `v0` with the given
/// tag byte, after `acc` was written into it.
pub open spec fn in_scope(v0: Asn1View, tag: u8, acc: Seq<u8>, v: Asn1View) -> bool {
    &&& v.cap == v0.cap
    &&& v.bytes == v0.bytes + seq![tag, 0u8] + acc
    &&& v.open == v0.open.push(v0.bytes.len() as int + 2)
}

/// The length of a tag, length and content.
pub proof fn lemma_der_tlv_len(tag: u8, c: Seq<u8>)
    ensures
        der_tlv(tag, c).len() == 1 + der_len_bytes(c.len()).len() + c.len(),
        1 <= der_len_bytes(c.len()).len() <= 3,
{
    assert((seq![tag] + der_len_bytes(c.len())).len() == 1 + der_len_bytes(c.len()).len());
}

/// A scope is open, or what was to be written in it does not fit.
pub proof fn lemma_scope_opened(
    v0: Asn1View,
    tag: u8,
    total: Option<Seq<u8>>,
    r: Result<(), Error>,
    v: Asn1View,
)
    requires
        v0.open.len() < MAX_DEPTH,
        scope_opened(v0, tag, r, v),
    ensures
        r is Ok ==> in_scope(v0, tag, Seq::<u8>::empty(), v),
        r is Err ==> emit_outcome(v0, tlv_opt(tag, total), r, v),
{
    if r is Ok {
        assert(v0.bytes + seq![tag, 0u8] + Seq::<u8>::empty() =~= v0.bytes + seq![tag, 0u8]);
    } else {
        match total {
            Some(t) => {
                lemma_der_tlv_len(tag, t);
            },
            None => {},
        }
    }
}

/// One piece more is written into a scope, or the whole does not fit.
pub proof fn lemma_scope_step(
    v0: Asn1View,
    tag: u8,
    acc: Seq<u8>,
    piece: Option<Seq<u8>>,
    total: Option<Seq<u8>>,
    vm: Asn1View,
    r: Result<(), Error>,
    va: Asn1View,
)
    requires
        in_scope(v0, tag, acc, vm),
        emit_outcome(vm, piece, r, va),
        total matches Some(t) ==> (piece matches Some(p) && t.len() >= acc.len() + p.len()),
    ensures
        r is Ok ==> piece is Some && in_scope(v0, tag, acc + piece->Some_0, va),
        r is Err ==> emit_outcome(v0, tlv_opt(tag, total), r, va),
{
    if r is Ok {
        let p = piece->Some_0;
        assert(v0.bytes + seq![tag, 0u8] + acc + p =~= v0.bytes + seq![tag, 0u8] + (acc + p));
    } else {
        match total {
            Some(t) => {
                lemma_der_tlv_len(tag, t);
                assert((v0.bytes + seq![tag, 0u8] + acc).len() == v0.bytes.len() + 2 + acc.len());
            },
            None => {},
        }
    }
}

/// A scope is closed: what was written in it stands after its tag and its
/// length, or the whole does not fit.
pub proof fn lemma_scope_end(
    v0: Asn1View,
    tag: u8,
    acc: Seq<u8>,
    vm: Asn1View,
    r: Result<(), Error>,
    va: Asn1View,
)
    requires
        in_scope(v0, tag, acc, vm),
        scope_closed(vm, r, va),
    ensures
        emit_outcome(v0, tlv_opt(tag, Some(acc)), r, va),
{
    lemma_scope_closed(v0.bytes, tag, acc);
    lemma_der_tlv_len(tag, acc);
    let at = v0.bytes.len() as int + 2;
    assert(vm.open.last() == at);
    assert(vm.open.drop_last() =~= v0.open);
    assert((v0.bytes + seq![tag, 0u8] + acc).len() == v0.bytes.len() + 2 + acc.len());
    assert((v0.bytes + der_tlv(tag, acc)).len() == v0.bytes.len() + der_tlv(tag, acc).len());
}

/// The ASCII character of a hexadecimal digit below sixteen.
fn hex_char(n: u8) -> (c: u8)
    requires
        n < 16,
    ensures
        c == hex_digit(n as int),
{
    if n < 10 {
        0x30 + n
    } else {
        0x41 + n - 10
    }
}

/// The `width` low hexadecimal digits of `v`, most significant first, in
/// upper case.
pub fn hex_text(v: u64, width: usize) -> (out: Vec<u8>)
    requires
        width <= 16,
    ensures
        out@ == hex_upper(v as nat, width as nat),
        out@.len() == width,
{
    let mut out: Vec<u8> = Vec::new();
    let mut k: usize = 0;
    while k < width
        invariant
            k <= width,
            out@.len() == k,
        decreases width - k,
    {
        out.push(0);
        k = k + 1;
    }
    let mut rest: u64 = v;
    let mut i: usize = 0;
    proof {
        assert(out@.subrange(width as int, width as int) =~= Seq::<u8>::empty());
        assert(hex_upper(rest as nat, width as nat) + Seq::<u8>::empty() =~= hex_upper(
            v as nat,
            width as nat,
        ));
    }
    while i < width
        invariant
            i <= width <= 16,
            out@.len() == width,
            hex_upper(v as nat, width as nat) == hex_upper(rest as nat, (width - i) as nat)
                + out@.subrange(width - i, width as int),
        decreases width - i,
    {
        let d: u8 = (rest % 16) as u8;
        let ghost before = out@;
        out[width - 1 - i] = hex_char(d);
        proof {
            let n = (width - i) as nat;
            assert(hex_upper(rest as nat, n) == hex_upper((rest / 16) as nat, (n - 1) as nat).push(
                hex_digit((rest % 16) as int),
            ));
            assert(out@.subrange(width - i - 1, width as int) =~= seq![hex_digit(d as int)]
                + before.subrange(width - i, width as int));
            assert(hex_upper(rest as nat, n) + before.subrange(width - i, width as int)
                =~= hex_upper((rest / 16) as nat, (n - 1) as nat) + out@.subrange(
                width - i - 1,
                width as int,
            ));
        }
        rest = rest / 16;
        i = i + 1;
    }
    proof {
        assert(hex_upper(rest as nat, 0) + out@.subrange(0, width as int) =~= out@);
    }
    out
}

/// The OID of a Matter distinguished name.
fn matter_dn_oid(n: u8) -> (v: Vec<u8>)
    ensures
        v@ == oid_matter_dn(n),
{
    let v: Vec<u8> = vec![0x2B, 0x06, 0x01, 0x04, 0x01, 0x82, 0xA2, 0x7C, 0x01, n];
    assert(v@ =~= oid_matter_dn(n));
    v
}

/// The text of a hexadecimal number has as many characters as asked for.
pub proof fn lemma_hex_upper_len(v: nat, width: nat)
    ensures
        hex_upper(v, width).len() == width,
    decreases width,
{
    if width > 0 {
        lemma_hex_upper_len(v / 16, (width - 1) as nat);
    }
}

/// Writes one distinguished name that Matter defines: a SET of a SEQUENCE
/// of the OID of its kind and its value as text.
pub fn encode_u64_dn(kind: u8, value: u64, w: &mut ASN1Writer) -> (r: Result<(), Error>)
    requires
        old(w).wf(),
        is_matter_dn(kind),
    ensures
        final(w).wf(),
        nested_outcome(old(w)@, Some(dn_entry_der(kind, value)), 2, r, final(w)@),
{
    if w.open_scopes() + 2 > MAX_DEPTH {
        return Err(Error::NoSpace);
    }
    let ghost v0 = w@;
    let ghost oid_d = der_tlv(TAG_OID, oid_matter_dn((kind - 16) as u8));
    let ghost txt_d = der_tlv(TAG_UTF8_STRING, dn_value_text(kind, value));
    let ghost seq_d = der_tlv(TAG_SEQUENCE, oid_d + txt_d);
    let ghost whole = dn_entry_der(kind, value);
    proof {
        lemma_hex_upper_len((value % 0x1_0000_0000) as nat, 8);
        lemma_hex_upper_len(value as nat, 16);
        lemma_der_tlv_len(TAG_OID, oid_matter_dn((kind - 16) as u8));
        lemma_der_tlv_len(TAG_UTF8_STRING, dn_value_text(kind, value));
        lemma_der_tlv_len(TAG_SEQUENCE, oid_d + txt_d);
        lemma_der_tlv_len(TAG_SET, seq_d);
        assert((oid_d + txt_d).len() == oid_d.len() + txt_d.len());
    }
    let r = w.start_set();
    proof {
        lemma_scope_opened(v0, TAG_SET, Some(seq_d), r, w@);
    }
    if r.is_err() {
        return r;
    }
    let ghost v1 = w@;
    let r = w.start_seq();
    proof {
        lemma_scope_opened(v1, TAG_SEQUENCE, Some(oid_d + txt_d), r, w@);
        if r is Err {
            lemma_scope_step(v0, TAG_SET, Seq::empty(), tlv_opt(TAG_SEQUENCE, Some(oid_d + txt_d)), Some(seq_d), v1, r, w@);
        }
    }
    if r.is_err() {
        return r;
    }
    let oid = matter_dn_oid(kind - 16);
    let ghost v2 = w@;
    let r = w.oid(oid.as_slice());
    proof {
        lemma_scope_step(v1, TAG_SEQUENCE, Seq::empty(), Some(oid_d), Some(oid_d + txt_d), v2, r, w@);
        if r is Err {
            lemma_scope_step(v0, TAG_SET, Seq::empty(), tlv_opt(TAG_SEQUENCE, Some(oid_d + txt_d)), Some(seq_d), v1, r, w@);
        }
    }
    if r.is_err() {
        return r;
    }
    let text: Vec<u8> = if kind == 22 {
        hex_text(value % 0x1_0000_0000, 8)
    } else {
        hex_text(value, 16)
    };
    let ghost v3 = w@;
    let r = w.utf8str(text.as_slice());
    proof {
        lemma_scope_step(v1, TAG_SEQUENCE, Seq::empty() + oid_d, Some(txt_d), Some(oid_d + txt_d), v3, r, w@);
        assert(Seq::<u8>::empty() + oid_d + txt_d =~= oid_d + txt_d);
        if r is Err {
            lemma_scope_step(v0, TAG_SET, Seq::empty(), tlv_opt(TAG_SEQUENCE, Some(oid_d + txt_d)), Some(seq_d), v1, r, w@);
        }
    }
    if r.is_err() {
        return r;
    }
    let ghost v4 = w@;
    let r = w.end_seq();
    proof {
        lemma_scope_end(v1, TAG_SEQUENCE, oid_d + txt_d, v4, r, w@);
        lemma_scope_step(v0, TAG_SET, Seq::empty(), tlv_opt(TAG_SEQUENCE, Some(oid_d + txt_d)), Some(seq_d), v1, r, w@);
        assert(Seq::<u8>::empty() + seq_d =~= seq_d);
    }
    if r.is_err() {
        return r;
    }
    let ghost v5 = w@;
    let r = w.end_set();
    proof {
        lemma_scope_end(v0, TAG_SET, seq_d, v5, r, w@);
    }
    r
}

} // verus!

verus! {

/// The entries of a run of names start with the entries of any shorter
/// run.
pub proof fn lemma_dn_entries_prefix(dn: Seq<(u8, u64)>, i: int)
    requires
        0 <= i <= dn.len(),
    ensures
        dn_entries_der(dn).len() >= dn_entries_der(dn.subrange(0, i)).len(),
    decreases dn.len() - i,
{
    if i < dn.len() {
        lemma_dn_entries_prefix(dn, i + 1);
        assert(dn.subrange(0, i + 1).drop_last() =~= dn.subrange(0, i));
    } else {
        assert(dn.subrange(0, i) =~= dn);
    }
}

/// Whether a name that Matter defines is among the names.
pub open spec fn has_matter_dn(dn: Seq<(u8, u64)>) -> bool {
    exists|i: int| 0 <= i < dn.len() && is_matter_dn(#[trigger] dn[i].0)
}

/// The number of scopes, one inside the other, that the names take: their
/// SEQUENCE and, where a name that Matter defines is among them, the SET
/// and the SEQUENCE of an entry.
pub open spec fn dn_levels(dn: Seq<(u8, u64)>) -> int {
    if has_matter_dn(dn) {
        3
    } else {
        1
    }
}

impl DistNames {
    /// The number of scopes, one inside the other, that the names take.
    pub fn nesting(&self) -> (n: usize)
        ensures
            n == dn_levels(self@),
            1 <= n <= 3,
    {
        let mut i: usize = 0;
        while i < self.dn.len()
            invariant
                i <= self.dn.len(),
                forall|k: int| 0 <= k < i ==> !is_matter_dn(#[trigger] self@[k].0),
            decreases self.dn.len() - i,
        {
            if 17 <= self.dn[i].0 && self.dn[i].0 <= 22 {
                assert(is_matter_dn(self@[i as int].0));
                return 3;
            }
            i = i + 1;
        }
        1
    }

    /// Writes the names as a SEQUENCE, each name that Matter defines as one
    /// entry, in the order in which they arrived; names of other kinds are
    /// passed over.
    pub fn encode(&self, w: &mut ASN1Writer) -> (r: Result<(), Error>)
        requires
            old(w).wf(),
        ensures
            final(w).wf(),
            nested_outcome(old(w)@, dn_der(self@), dn_levels(self@), r, final(w)@),
    {
        if w.open_scopes() + self.nesting() > MAX_DEPTH {
            return Err(Error::NoSpace);
        }
        let ghost v0 = w@;
        let ghost total = Some(dn_entries_der(self@));
        let r = w.start_seq();
        proof {
            lemma_scope_opened(v0, TAG_SEQUENCE, total, r, w@);
        }
        if r.is_err() {
            return r;
        }
        let mut i: usize = 0;
        proof {
            assert(self@.subrange(0, 0) =~= Seq::<(u8, u64)>::empty());
        }
        while i < self.dn.len()
            invariant
                i <= self.dn.len(),
                w.wf(),
                v0 == old(w)@,
                v0.open.len() + dn_levels(self@) <= MAX_DEPTH,
                total == Some(dn_entries_der(self@)),
                in_scope(v0, TAG_SEQUENCE, dn_entries_der(self@.subrange(0, i as int)), w@),
            decreases self.dn.len() - i,
        {
            let (kind, value) = self.dn[i];
            let ghost acc = dn_entries_der(self@.subrange(0, i as int));
            let ghost vm = w@;
            proof {
                assert(self@.subrange(0, i + 1).drop_last() =~= self@.subrange(0, i as int));
                assert(self@.subrange(0, i + 1).last() == (kind, value));
                lemma_dn_entries_prefix(self@, i + 1);
                assert((acc + dn_entry_der(kind, value)).len() == acc.len() + dn_entry_der(
                    kind,
                    value,
                ).len());
            }
            if 17 <= kind && kind <= 22 {
                assert(is_matter_dn(self@[i as int].0));
                let r = encode_u64_dn(kind, value, w);
                proof {
                    lemma_scope_step(
                        v0,
                        TAG_SEQUENCE,
                        acc,
                        Some(dn_entry_der(kind, value)),
                        total,
                        vm,
                        r,
                        w@,
                    );
                }
                if r.is_err() {
                    return r;
                }
            } else {
                assert(acc + dn_entry_der(kind, value) =~= acc);
            }
            i = i + 1;
        }
        let ghost vm = w@;
        let r = w.end_seq();
        proof {
            assert(self@.subrange(0, i as int) =~= self@);
            lemma_scope_end(v0, TAG_SEQUENCE, dn_entries_der(self@), vm, r, w@);
        }
        r
    }
}

} // verus!

verus! {

/// The body of one extension, ready to be written.
pub enum ExtensionBody<'a> {
    BasicConst(BasicConstraints),
    KeyUsage(u16),
    ExtKeyUsage(&'a Vec<u8>),
    SubjKeyId(&'a Vec<u8>),
    AuthKeyId(&'a Vec<u8>),
}

impl<'a> ExtensionBody<'a> {
    /// The last arc of the OID of the extension.
    pub open spec fn number(self) -> u8 {
        match self {
            ExtensionBody::BasicConst(_) => EXT_BASIC_CONSTRAINTS,
            ExtensionBody::KeyUsage(_) => EXT_KEY_USAGE,
            ExtensionBody::ExtKeyUsage(_) => EXT_EXT_KEY_USAGE,
            ExtensionBody::SubjKeyId(_) => EXT_SUBJ_KEY_IDENTIFIER,
            ExtensionBody::AuthKeyId(_) => EXT_AUTH_KEY_ID,
        }
    }

    /// Whether the extension is marked critical.
    pub open spec fn critical(self) -> bool {
        match self {
            ExtensionBody::BasicConst(_) => true,
            ExtensionBody::KeyUsage(_) => true,
            ExtensionBody::ExtKeyUsage(_) => true,
            ExtensionBody::SubjKeyId(_) => false,
            ExtensionBody::AuthKeyId(_) => false,
        }
    }

    /// The number of scopes, one inside the other, that the body takes.
    pub open spec fn levels(self) -> int {
        match self {
            ExtensionBody::BasicConst(_) => 1,
            ExtensionBody::KeyUsage(_) => 0,
            ExtensionBody::ExtKeyUsage(_) => 1,
            ExtensionBody::SubjKeyId(_) => 0,
            ExtensionBody::AuthKeyId(_) => 1,
        }
    }

    /// The number of scopes, one inside the other, that the body takes.
    pub fn nesting(&self) -> (n: usize)
        ensures
            n == self.levels(),
    {
        match self {
            ExtensionBody::BasicConst(_) => 1,
            ExtensionBody::KeyUsage(_) => 0,
            ExtensionBody::ExtKeyUsage(_) => 1,
            ExtensionBody::SubjKeyId(_) => 0,
            ExtensionBody::AuthKeyId(_) => 1,
        }
    }

    /// The DER of the body.
    pub open spec fn der(self) -> Option<Seq<u8>> {
        match self {
            ExtensionBody::BasicConst(bc) => basic_const_body(bc),
            ExtensionBody::KeyUsage(k) => key_usage_body(k),
            ExtensionBody::ExtKeyUsage(l) => ext_key_usage_body(l@),
            ExtensionBody::SubjKeyId(id) => subj_key_id_body(id@),
            ExtensionBody::AuthKeyId(id) => auth_key_id_body(id@),
        }
    }
}

impl BasicConstraints {
    /// Writes the body of the basic-constraints extension: a SEQUENCE that
    /// holds the BOOLEAN true for a CA and nothing otherwise. A path length
    /// is not written.
    pub fn encode(&self, w: &mut ASN1Writer) -> (r: Result<(), Error>)
        requires
            old(w).wf(),
        ensures
            final(w).wf(),
            nested_outcome(old(w)@, basic_const_body(*self), 1, r, final(w)@),
    {
        if w.open_scopes() + 1 > MAX_DEPTH {
            return Err(Error::NoSpace);
        }
        let ghost v0 = w@;
        let ghost content = if self.is_ca {
            der_true()
        } else {
            Seq::<u8>::empty()
        };
        let r = w.start_seq();
        proof {
            lemma_scope_opened(v0, TAG_SEQUENCE, Some(content), r, w@);
        }
        if r.is_err() {
            return r;
        }
        if self.is_ca {
            let ghost vm = w@;
            let r = w.bool(true);
            proof {
                lemma_scope_step(
                    v0,
                    TAG_SEQUENCE,
                    Seq::empty(),
                    Some(der_true()),
                    Some(content),
                    vm,
                    r,
                    w@,
                );
                assert(Seq::<u8>::empty() + der_true() =~= content);
            }
            if r.is_err() {
                return r;
            }
        }
        let ghost vm = w@;
        let r = w.end_seq();
        proof {
            lemma_scope_end(v0, TAG_SEQUENCE, content, vm, r, w@);
        }
        r
    }
}

/// Writes the body of the key-usage extension: the bit mask as a BIT STRING
/// with the bits of each byte in reverse order, low byte first, cut after
/// its last bit that is set.
pub fn encode_key_usage(key_usage: u16, w: &mut ASN1Writer) -> (r: Result<(), Error>)
    requires
        old(w).wf(),
    ensures
        final(w).wf(),
        emit_outcome(old(w)@, key_usage_body(key_usage), r, final(w)@),
{
    let mut key_usage_str: Vec<u8> = vec![0, 0];
    crate::bits::int_to_bitstring(key_usage, key_usage_str.as_mut_slice());
    assert(key_usage_str@ =~= crate::cert::der::key_usage_bits(key_usage));
    w.bitstr(true, key_usage_str.as_slice())
}

/// The OID of a key purpose.
fn key_purpose_oid(index: u8) -> (v: Vec<u8>)
    requires
        1 <= index <= 6,
    ensures
        v@ == oid_key_purpose(key_purpose_arc(index)),
{
    let arc: u8 = if index == 5 {
        8
    } else if index == 6 {
        9
    } else {
        index
    };
    let v: Vec<u8> = vec![0x2B, 0x06, 0x01, 0x05, 0x05, 0x07, 0x03, arc];
    assert(v@ =~= oid_key_purpose(key_purpose_arc(index)));
    v
}

/// The key purposes of a run of indices start with those of any shorter
/// run.
pub proof fn lemma_key_purposes_prefix(list: Seq<u8>, i: int)
    requires
        0 <= i <= list.len(),
    ensures
        key_purposes_der(list).len() >= key_purposes_der(list.subrange(0, i)).len(),
    decreases list.len() - i,
{
    if i < list.len() {
        lemma_key_purposes_prefix(list, i + 1);
        assert(list.subrange(0, i + 1).drop_last() =~= list.subrange(0, i));
    } else {
        assert(list.subrange(0, i) =~= list);
    }
}

/// Writes the body of the extended-key-usage extension: a SEQUENCE of the
/// OIDs of the key purposes that the indices name, in order. An index
/// outside 1 to 6 names no purpose and is passed over.
pub fn encode_extended_key_usage(list: &Vec<u8>, w: &mut ASN1Writer) -> (r: Result<(), Error>)
    requires
        old(w).wf(),
    ensures
        final(w).wf(),
        nested_outcome(old(w)@, ext_key_usage_body(list@), 1, r, final(w)@),
{
    if w.open_scopes() + 1 > MAX_DEPTH {
        return Err(Error::NoSpace);
    }
    let ghost v0 = w@;
    let ghost total = Some(key_purposes_der(list@));
    let r = w.start_seq();
    proof {
        lemma_scope_opened(v0, TAG_SEQUENCE, total, r, w@);
        assert(list@.subrange(0, 0) =~= Seq::<u8>::empty());
    }
    if r.is_err() {
        return r;
    }
    let mut i: usize = 0;
    while i < list.len()
        invariant
            i <= list.len(),
            w.wf(),
            v0 == old(w)@,
            total == Some(key_purposes_der(list@)),
            in_scope(v0, TAG_SEQUENCE, key_purposes_der(list@.subrange(0, i as int)), w@),
        decreases list.len() - i,
    {
        let t: u8 = list[i];
        let ghost acc = key_purposes_der(list@.subrange(0, i as int));
        let ghost vm = w@;
        let ghost piece = if 1 <= t <= 6 {
            der_tlv(TAG_OID, oid_key_purpose(key_purpose_arc(t)))
        } else {
            Seq::<u8>::empty()
        };
        proof {
            assert(list@.subrange(0, i + 1).drop_last() =~= list@.subrange(0, i as int));
            assert(list@.subrange(0, i + 1).last() == t);
            lemma_key_purposes_prefix(list@, i + 1);
            assert((acc + piece).len() == acc.len() + piece.len());
        }
        if 1 <= t && t <= 6 {
            let oid = key_purpose_oid(t);
            let r = w.oid(oid.as_slice());
            proof {
                lemma_scope_step(v0, TAG_SEQUENCE, acc, Some(piece), total, vm, r, w@);
            }
            if r.is_err() {
                return r;
            }
        } else {
            assert(acc + piece =~= acc);
        }
        i = i + 1;
    }
    let ghost vm = w@;
    let r = w.end_seq();
    proof {
        assert(list@.subrange(0, i as int) =~= list@);
        lemma_scope_end(v0, TAG_SEQUENCE, key_purposes_der(list@), vm, r, w@);
    }
    r
}

/// Writes the body of the authority-key-identifier extension: a SEQUENCE
/// with the identifier under the implicit context tag 0.
pub fn encode_auth_key_id(id: &Vec<u8>, w: &mut ASN1Writer) -> (r: Result<(), Error>)
    requires
        old(w).wf(),
    ensures
        final(w).wf(),
        nested_outcome(old(w)@, auth_key_id_body(id@), 1, r, final(w)@),
{
    if w.open_scopes() + 1 > MAX_DEPTH {
        return Err(Error::NoSpace);
    }
    let ghost v0 = w@;
    let ghost piece = tlv_opt(0x80u8, Some(id@));
    let r = w.start_seq();
    proof {
        lemma_scope_opened(v0, TAG_SEQUENCE, piece, r, w@);
    }
    if r.is_err() {
        return r;
    }
    let ghost vm = w@;
    let r = w.ctx(0, id.as_slice());
    proof {
        lemma_scope_step(v0, TAG_SEQUENCE, Seq::empty(), piece, piece, vm, r, w@);
    }
    if r.is_err() {
        return r;
    }
    let ghost vm = w@;
    let r = w.end_seq();
    proof {
        assert(Seq::<u8>::empty() + piece->Some_0 =~= piece->Some_0);
        lemma_scope_end(v0, TAG_SEQUENCE, piece->Some_0, vm, r, w@);
    }
    r
}

/// Writes the body of an extension.
pub fn encode_extension_body(body: &ExtensionBody, w: &mut ASN1Writer) -> (r: Result<(), Error>)
    requires
        old(w).wf(),
    ensures
        final(w).wf(),
        nested_outcome(old(w)@, body.der(), body.levels(), r, final(w)@),
{
    match body {
        ExtensionBody::BasicConst(bc) => bc.encode(w),
        ExtensionBody::KeyUsage(k) => encode_key_usage(*k, w),
        ExtensionBody::ExtKeyUsage(l) => encode_extended_key_usage(l, w),
        ExtensionBody::SubjKeyId(id) => w.ostr(id.as_slice()),
        ExtensionBody::AuthKeyId(id) => encode_auth_key_id(id, w),
    }
}

/// Writes the value of an extension: an OCTET STRING around its body.
pub fn encode_extension_value(body: &ExtensionBody, w: &mut ASN1Writer) -> (r: Result<(), Error>)
    requires
        old(w).wf(),
    ensures
        final(w).wf(),
        nested_outcome(
            old(w)@,
            tlv_opt(TAG_OCTET_STRING, body.der()),
            1 + body.levels(),
            r,
            final(w)@,
        ),
{
    if w.open_scopes() + 1 + body.nesting() > MAX_DEPTH {
        return Err(Error::NoSpace);
    }
    let ghost v0 = w@;
    let r = w.start_compound_ostr();
    proof {
        lemma_scope_opened(v0, TAG_OCTET_STRING, body.der(), r, w@);
    }
    if r.is_err() {
        return r;
    }
    let ghost vm = w@;
    let r = encode_extension_body(body, w);
    proof {
        lemma_scope_step(v0, TAG_OCTET_STRING, Seq::empty(), body.der(), body.der(), vm, r, w@);
    }
    if r.is_err() {
        return r;
    }
    let ghost vm = w@;
    let r = w.end_compound_ostr();
    proof {
        assert(Seq::<u8>::empty() + body.der()->Some_0 =~= body.der()->Some_0);
        lemma_scope_end(v0, TAG_OCTET_STRING, body.der()->Some_0, vm, r, w@);
    }
    r
}

/// The OID of an X.509 extension.
fn extension_oid(n: u8) -> (v: Vec<u8>)
    ensures
        v@ == oid_extension(n),
{
    let v: Vec<u8> = vec![0x55, 0x1D, n];
    assert(v@ =~= oid_extension(n));
    v
}

/// Writes one extension: a SEQUENCE of its OID, the BOOLEAN true where it
/// is critical, and an OCTET STRING around its body.
pub fn encode_extension(body: &ExtensionBody, w: &mut ASN1Writer) -> (r: Result<(), Error>)
    requires
        old(w).wf(),
    ensures
        final(w).wf(),
        nested_outcome(
            old(w)@,
            extension_der(body.number(), body.critical(), body.der()),
            2 + body.levels(),
            r,
            final(w)@,
        ),
{
    if w.open_scopes() + 2 + body.nesting() > MAX_DEPTH {
        return Err(Error::NoSpace);
    }
    let ghost v0 = w@;
    let (n, critical): (u8, bool) = match body {
        ExtensionBody::BasicConst(_) => (EXT_BASIC_CONSTRAINTS, true),
        ExtensionBody::KeyUsage(_) => (EXT_KEY_USAGE, true),
        ExtensionBody::ExtKeyUsage(_) => (EXT_EXT_KEY_USAGE, true),
        ExtensionBody::SubjKeyId(_) => (EXT_SUBJ_KEY_IDENTIFIER, false),
        ExtensionBody::AuthKeyId(_) => (EXT_AUTH_KEY_ID, false),
    };
    let ghost oid_d = der_tlv(TAG_OID, oid_extension(n));
    let ghost crit_d = if critical {
        der_true()
    } else {
        Seq::<u8>::empty()
    };
    let ghost value = tlv_opt(TAG_OCTET_STRING, body.der());
    let ghost total = cat_opt(Some(oid_d + crit_d), value);
    proof {
        assert((oid_d + crit_d).len() == oid_d.len() + crit_d.len());
        if value is Some {
            assert((oid_d + crit_d + value->Some_0).len() == (oid_d + crit_d).len()
                + value->Some_0.len());
        }
    }
    let r = w.start_seq();
    proof {
        lemma_scope_opened(v0, TAG_SEQUENCE, total, r, w@);
    }
    if r.is_err() {
        return r;
    }
    let oid = extension_oid(n);
    let ghost vm = w@;
    let r = w.oid(oid.as_slice());
    proof {
        lemma_scope_step(v0, TAG_SEQUENCE, Seq::empty(), Some(oid_d), total, vm, r, w@);
    }
    if r.is_err() {
        return r;
    }
    if critical {
        let ghost vm = w@;
        let r = w.bool(true);
        proof {
            lemma_scope_step(
                v0,
                TAG_SEQUENCE,
                Seq::empty() + oid_d,
                Some(der_true()),
                total,
                vm,
                r,
                w@,
            );
        }
        if r.is_err() {
            return r;
        }
    }
    proof {
        assert(Seq::<u8>::empty() + oid_d + crit_d =~= oid_d + crit_d);
        if critical {
        } else {
            assert(Seq::<u8>::empty() + oid_d =~= oid_d + crit_d);
        }
    }
    let ghost vm = w@;
    let r = encode_extension_value(body, w);
    proof {
        lemma_scope_step(v0, TAG_SEQUENCE, oid_d + crit_d, value, total, vm, r, w@);
    }
    if r.is_err() {
        return r;
    }
    let ghost vm = w@;
    let r = w.end_seq();
    proof {
        lemma_scope_end(v0, TAG_SEQUENCE, oid_d + crit_d + value->Some_0, vm, r, w@);
    }
    r
}

} // verus!

verus! {

/// The DER of an extension that may be absent.
pub open spec fn optional_extension(b: Option<ExtensionBody>) -> Option<Seq<u8>> {
    optional_der(
        match b {
            Some(x) => Some(extension_der(x.number(), x.critical(), x.der())),
            None => None,
        },
    )
}

/// Writes an extension where there is one.
/// The number of scopes, one inside the other, that an extension takes
/// where there is one: its SEQUENCE, the OCTET STRING of its value, and
/// those of its body.
pub open spec fn optional_levels(body: Option<ExtensionBody>) -> int {
    match body {
        Some(b) => 2 + b.levels(),
        None => 0,
    }
}

fn encode_optional_extension(body: &Option<ExtensionBody>, w: &mut ASN1Writer) -> (r: Result<
    (),
    Error,
>)
    requires
        old(w).wf(),
        old(w)@.open.len() + optional_levels(*body) <= MAX_DEPTH,
    ensures
        final(w).wf(),
        emit_outcome(old(w)@, optional_extension(*body), r, final(w)@),
{
    match body {
        Some(b) => encode_extension(b, w),
        None => {
            assert(w@.bytes + Seq::<u8>::empty() =~= w@.bytes);
            Ok(())
        },
    }
}

/// The number of scopes, one inside the other, that the extensions take
/// inside their SEQUENCE: three where basic constraints, extended key
/// usage or an authority key identifier are present, two where only key
/// usage or a subject key identifier are, and none where there is none.
pub open spec fn extensions_levels(m: crate::cert::model::ExtensionsModel) -> int {
    if m.basic_const is Some || m.ext_key_usage is Some || m.auth_key_id is Some {
        3
    } else if m.key_usage is Some || m.subj_key_id is Some {
        2
    } else {
        0
    }
}

impl Extensions {
    /// The number of scopes, one inside the other, that the extensions take
    /// inside their SEQUENCE.
    pub fn nesting(&self) -> (n: usize)
        ensures
            n == extensions_levels(self@),
            n <= 3,
    {
        if self.basic_const.is_some() || self.ext_key_usage.is_some() || self.auth_key_id.is_some() {
            3
        } else if self.key_usage.is_some() || self.subj_key_id.is_some() {
            2
        } else {
            0
        }
    }

    /// Writes the extensions that are present as a SEQUENCE: basic
    /// constraints, key usage, extended key usage, subject key identifier,
    /// authority key identifier.
    pub fn encode_list(&self, w: &mut ASN1Writer) -> (r: Result<(), Error>)
        requires
            old(w).wf(),
        ensures
            final(w).wf(),
            nested_outcome(
                old(w)@,
                tlv_opt(TAG_SEQUENCE, extensions_list_der(self@)),
                1 + extensions_levels(self@),
                r,
                final(w)@,
            ),
    {
        if w.open_scopes() + 1 + self.nesting() > MAX_DEPTH {
            return Err(Error::NoSpace);
        }
        self.put_list(w)
    }

    /// Writes the SEQUENCE of the extensions into a writer in which the
    /// scopes that they take can be opened.
    fn put_list(&self, w: &mut ASN1Writer) -> (r: Result<(), Error>)
        requires
            old(w).wf(),
            old(w)@.open.len() + 1 + extensions_levels(self@) <= MAX_DEPTH,
        ensures
            final(w).wf(),
            emit_outcome(old(w)@, tlv_opt(TAG_SEQUENCE, extensions_list_der(self@)), r, final(w)@),
    {
        let ghost v0 = w@;
        let ghost total = extensions_list_der(self@);
        let b1: Option<ExtensionBody> = match self.basic_const {
            Some(bc) => Some(ExtensionBody::BasicConst(bc)),
            None => None,
        };
        let b2: Option<ExtensionBody> = match self.key_usage {
            Some(k) => Some(ExtensionBody::KeyUsage(k)),
            None => None,
        };
        let b3: Option<ExtensionBody> = match &self.ext_key_usage {
            Some(l) => Some(ExtensionBody::ExtKeyUsage(l)),
            None => None,
        };
        let b4: Option<ExtensionBody> = match &self.subj_key_id {
            Some(id) => Some(ExtensionBody::SubjKeyId(id)),
            None => None,
        };
        let b5: Option<ExtensionBody> = match &self.auth_key_id {
            Some(id) => Some(ExtensionBody::AuthKeyId(id)),
            None => None,
        };
        let ghost part1 = optional_extension(b1);
        let ghost part2 = optional_extension(b2);
        let ghost part3 = optional_extension(b3);
        let ghost part4 = optional_extension(b4);
        let ghost part5 = optional_extension(b5);
        proof {
            assert(optional_levels(b1) <= extensions_levels(self@));
            assert(optional_levels(b2) <= extensions_levels(self@));
            assert(optional_levels(b3) <= extensions_levels(self@));
            assert(optional_levels(b4) <= extensions_levels(self@));
            assert(optional_levels(b5) <= extensions_levels(self@));
            assert(total == cat_opt(cat_opt(cat_opt(cat_opt(part1, part2), part3), part4), part5));
            if total is Some {
                let a1 = part1->Some_0;
                let a2 = part2->Some_0;
                let a3 = part3->Some_0;
                let a4 = part4->Some_0;
                let a5 = part5->Some_0;
                assert((a1 + a2).len() == a1.len() + a2.len());
                assert((a1 + a2 + a3).len() == (a1 + a2).len() + a3.len());
                assert((a1 + a2 + a3 + a4).len() == (a1 + a2 + a3).len() + a4.len());
                assert((a1 + a2 + a3 + a4 + a5).len() == (a1 + a2 + a3 + a4).len() + a5.len());
            }
        }
        let r = w.start_seq();
        proof {
            lemma_scope_opened(v0, TAG_SEQUENCE, total, r, w@);
        }
        if r.is_err() {
            return r;
        }
        let ghost vm = w@;
        let r = encode_optional_extension(&b1, w);
        proof {
            lemma_scope_step(v0, TAG_SEQUENCE, Seq::empty(), part1, total, vm, r, w@);
        }
        if r.is_err() {
            return r;
        }
        let ghost acc = part1->Some_0;
        proof {
            assert(Seq::<u8>::empty() + part1->Some_0 =~= acc);
        }
        let ghost vm = w@;
        let r = encode_optional_extension(&b2, w);
        proof {
            lemma_scope_step(v0, TAG_SEQUENCE, acc, part2, total, vm, r, w@);
        }
        if r.is_err() {
            return r;
        }
        let ghost acc = acc + part2->Some_0;
        let ghost vm = w@;
        let r = encode_optional_extension(&b3, w);
        proof {
            lemma_scope_step(v0, TAG_SEQUENCE, acc, part3, total, vm, r, w@);
        }
        if r.is_err() {
            return r;
        }
        let ghost acc = acc + part3->Some_0;
        let ghost vm = w@;
        let r = encode_optional_extension(&b4, w);
        proof {
            lemma_scope_step(v0, TAG_SEQUENCE, acc, part4, total, vm, r, w@);
        }
        if r.is_err() {
            return r;
        }
        let ghost acc = acc + part4->Some_0;
        let ghost vm = w@;
        let r = encode_optional_extension(&b5, w);
        proof {
            lemma_scope_step(v0, TAG_SEQUENCE, acc, part5, total, vm, r, w@);
        }
        if r.is_err() {
            return r;
        }
        let ghost acc = acc + part5->Some_0;
        let ghost vm = w@;
        let r = w.end_seq();
        proof {
            lemma_scope_end(v0, TAG_SEQUENCE, acc, vm, r, w@);
        }
        r
    }

    /// Writes the extensions: the explicit context tag 3 around the
    /// SEQUENCE of those that are present.
    pub fn encode(&self, w: &mut ASN1Writer) -> (r: Result<(), Error>)
        requires
            old(w).wf(),
        ensures
            final(w).wf(),
            nested_outcome(
                old(w)@,
                extensions_der(self@),
                2 + extensions_levels(self@),
                r,
                final(w)@,
            ),
    {
        if w.open_scopes() + 2 + self.nesting() > MAX_DEPTH {
            return Err(Error::NoSpace);
        }
        let ghost v0 = w@;
        let ghost piece = tlv_opt(TAG_SEQUENCE, extensions_list_der(self@));
        let r = w.start_ctx(3);
        proof {
            lemma_scope_opened(v0, 0xa3u8, piece, r, w@);
        }
        if r.is_err() {
            return r;
        }
        let ghost vm = w@;
        let r = self.encode_list(w);
        proof {
            lemma_scope_step(v0, 0xa3u8, Seq::empty(), piece, piece, vm, r, w@);
        }
        if r.is_err() {
            return r;
        }
        let ghost vm = w@;
        let r = w.end_ctx();
        proof {
            assert(Seq::<u8>::empty() + piece->Some_0 =~= piece->Some_0);
            lemma_scope_end(v0, 0xa3u8, piece->Some_0, vm, r, w@);
        }
        r
    }
}

} // verus!

verus! {

/// Writes the version: the explicit context tag 0 around INTEGER 2.
pub fn encode_version(w: &mut ASN1Writer) -> (r: Result<(), Error>)
    requires
        old(w).wf(),
    ensures
        final(w).wf(),
        nested_outcome(old(w)@, Some(version_der()), 1, r, final(w)@),
{
    if w.open_scopes() + 1 > MAX_DEPTH {
        return Err(Error::NoSpace);
    }
    let ghost v0 = w@;
    let ghost piece = der_tlv(TAG_INTEGER, seq![2u8]);
    let two: Vec<u8> = vec![2];
    proof {
        assert(two@ =~= seq![2u8]);
        assert(integer_content(two@) =~= seq![2u8]);
        lemma_der_tlv_len(TAG_INTEGER, seq![2u8]);
    }
    let r = w.start_ctx(0);
    proof {
        lemma_scope_opened(v0, 0xa0u8, Some(piece), r, w@);
    }
    if r.is_err() {
        return r;
    }
    let ghost vm = w@;
    let r = w.integer(two.as_slice());
    proof {
        lemma_scope_step(v0, 0xa0u8, Seq::empty(), Some(piece), Some(piece), vm, r, w@);
    }
    if r.is_err() {
        return r;
    }
    let ghost vm = w@;
    let r = w.end_ctx();
    proof {
        assert(Seq::<u8>::empty() + piece =~= piece);
        lemma_scope_end(v0, 0xa0u8, piece, vm, r, w@);
    }
    r
}

/// Writes the signature algorithm: a SEQUENCE of the OID of ECDSA with
/// SHA-256.
pub fn encode_sign_algo(w: &mut ASN1Writer) -> (r: Result<(), Error>)
    requires
        old(w).wf(),
    ensures
        final(w).wf(),
        nested_outcome(old(w)@, Some(sign_algo_der()), 1, r, final(w)@),
{
    if w.open_scopes() + 1 > MAX_DEPTH {
        return Err(Error::NoSpace);
    }
    let ghost v0 = w@;
    let ghost piece = der_tlv(TAG_OID, oid_ecdsa_with_sha256());
    let oid: Vec<u8> = vec![0x2A, 0x86, 0x48, 0xCE, 0x3D, 0x04, 0x03, 0x02];
    proof {
        assert(oid@ =~= oid_ecdsa_with_sha256());
        lemma_der_tlv_len(TAG_OID, oid_ecdsa_with_sha256());
    }
    let r = w.start_seq();
    proof {
        lemma_scope_opened(v0, TAG_SEQUENCE, Some(piece), r, w@);
    }
    if r.is_err() {
        return r;
    }
    let ghost vm = w@;
    let r = w.oid(oid.as_slice());
    proof {
        lemma_scope_step(v0, TAG_SEQUENCE, Seq::empty(), Some(piece), Some(piece), vm, r, w@);
    }
    if r.is_err() {
        return r;
    }
    let ghost vm = w@;
    let r = w.end_seq();
    proof {
        assert(Seq::<u8>::empty() + piece =~= piece);
        lemma_scope_end(v0, TAG_SEQUENCE, piece, vm, r, w@);
    }
    r
}

/// The text of a UTCTime has thirteen characters.
pub proof fn lemma_utctime_len(epoch: u32)
    ensures
        utctime_content(epoch).len() == 13,
{
}

/// Writes the validity: a SEQUENCE of the two UTCTimes.
pub fn encode_validity(not_before: u32, not_after: u32, w: &mut ASN1Writer) -> (r: Result<
    (),
    Error,
>)
    requires
        old(w).wf(),
    ensures
        final(w).wf(),
        nested_outcome(old(w)@, Some(validity_der(not_before, not_after)), 1, r, final(w)@),
{
    if w.open_scopes() + 1 > MAX_DEPTH {
        return Err(Error::NoSpace);
    }
    let ghost v0 = w@;
    let ghost a = der_tlv(TAG_UTC_TIME, utctime_content(not_before));
    let ghost b = der_tlv(TAG_UTC_TIME, utctime_content(not_after));
    proof {
        lemma_utctime_len(not_before);
        lemma_utctime_len(not_after);
        lemma_der_tlv_len(TAG_UTC_TIME, utctime_content(not_before));
        lemma_der_tlv_len(TAG_UTC_TIME, utctime_content(not_after));
        assert((a + b).len() == a.len() + b.len());
    }
    let r = w.start_seq();
    proof {
        lemma_scope_opened(v0, TAG_SEQUENCE, Some(a + b), r, w@);
    }
    if r.is_err() {
        return r;
    }
    let ghost vm = w@;
    let r = w.utctime(not_before);
    proof {
        lemma_scope_step(v0, TAG_SEQUENCE, Seq::empty(), Some(a), Some(a + b), vm, r, w@);
    }
    if r.is_err() {
        return r;
    }
    let ghost vm = w@;
    let r = w.utctime(not_after);
    proof {
        lemma_scope_step(v0, TAG_SEQUENCE, Seq::empty() + a, Some(b), Some(a + b), vm, r, w@);
    }
    if r.is_err() {
        return r;
    }
    let ghost vm = w@;
    let r = w.end_seq();
    proof {
        assert(Seq::<u8>::empty() + a + b =~= a + b);
        lemma_scope_end(v0, TAG_SEQUENCE, a + b, vm, r, w@);
    }
    r
}

/// Writes the algorithm of the public key: a SEQUENCE of the OIDs of EC
/// public keys and of the curve prime256v1.
pub fn encode_pubkey_algo(w: &mut ASN1Writer) -> (r: Result<(), Error>)
    requires
        old(w).wf(),
    ensures
        final(w).wf(),
        nested_outcome(old(w)@, Some(pubkey_algo_der()), 1, r, final(w)@),
{
    if w.open_scopes() + 1 > MAX_DEPTH {
        return Err(Error::NoSpace);
    }
    let ghost v0 = w@;
    let ghost a = der_tlv(TAG_OID, oid_pub_key_ecpubkey());
    let ghost b = der_tlv(TAG_OID, oid_ec_type_prime256v1());
    let oid_a: Vec<u8> = vec![0x2A, 0x86, 0x48, 0xCE, 0x3D, 0x02, 0x01];
    let oid_b: Vec<u8> = vec![0x2A, 0x86, 0x48, 0xCE, 0x3D, 0x03, 0x01, 0x07];
    proof {
        assert(oid_a@ =~= oid_pub_key_ecpubkey());
        assert(oid_b@ =~= oid_ec_type_prime256v1());
        lemma_der_tlv_len(TAG_OID, oid_pub_key_ecpubkey());
        lemma_der_tlv_len(TAG_OID, oid_ec_type_prime256v1());
        assert((a + b).len() == a.len() + b.len());
    }
    let r = w.start_seq();
    proof {
        lemma_scope_opened(v0, TAG_SEQUENCE, Some(a + b), r, w@);
    }
    if r.is_err() {
        return r;
    }
    let ghost vm = w@;
    let r = w.oid(oid_a.as_slice());
    proof {
        lemma_scope_step(v0, TAG_SEQUENCE, Seq::empty(), Some(a), Some(a + b), vm, r, w@);
    }
    if r.is_err() {
        return r;
    }
    let ghost vm = w@;
    let r = w.oid(oid_b.as_slice());
    proof {
        lemma_scope_step(v0, TAG_SEQUENCE, Seq::empty() + a, Some(b), Some(a + b), vm, r, w@);
    }
    if r.is_err() {
        return r;
    }
    let ghost vm = w@;
    let r = w.end_seq();
    proof {
        assert(Seq::<u8>::empty() + a + b =~= a + b);
        lemma_scope_end(v0, TAG_SEQUENCE, a + b, vm, r, w@);
    }
    r
}

/// Writes the public key: a SEQUENCE of its algorithm and the key as a BIT
/// STRING.
pub fn encode_pubkey(pubkey: &Vec<u8>, w: &mut ASN1Writer) -> (r: Result<(), Error>)
    requires
        old(w).wf(),
    ensures
        final(w).wf(),
        nested_outcome(old(w)@, pubkey_der(pubkey@), 2, r, final(w)@),
{
    if w.open_scopes() + 2 > MAX_DEPTH {
        return Err(Error::NoSpace);
    }
    let ghost v0 = w@;
    let ghost a = pubkey_algo_der();
    let ghost b = tlv_opt(TAG_BIT_STRING, Some(bitstr_content(false, pubkey@)));
    let ghost total = cat_opt(Some(a), b);
    proof {
        if b is Some {
            assert((a + b->Some_0).len() == a.len() + b->Some_0.len());
        }
    }
    let r = w.start_seq();
    proof {
        lemma_scope_opened(v0, TAG_SEQUENCE, total, r, w@);
    }
    if r.is_err() {
        return r;
    }
    let ghost vm = w@;
    let r = encode_pubkey_algo(w);
    proof {
        lemma_scope_step(v0, TAG_SEQUENCE, Seq::empty(), Some(a), total, vm, r, w@);
    }
    if r.is_err() {
        return r;
    }
    let ghost vm = w@;
    let r = w.bitstr(false, pubkey.as_slice());
    proof {
        lemma_scope_step(v0, TAG_SEQUENCE, Seq::empty() + a, b, total, vm, r, w@);
    }
    if r.is_err() {
        return r;
    }
    let ghost vm = w@;
    let r = w.end_seq();
    proof {
        assert(Seq::<u8>::empty() + a + b->Some_0 =~= a + b->Some_0);
        lemma_scope_end(v0, TAG_SEQUENCE, a + b->Some_0, vm, r, w@);
    }
    r
}

/// The number of scopes, one inside the other, that the signed part of a
/// certificate takes: its SEQUENCE and the most that a part in it takes,
/// which is two for the public key, and may be more for the names and the
/// extensions.
pub open spec fn cert_levels(m: CertModel) -> int {
    let issuer = dn_levels(m.issuer);
    let subject = dn_levels(m.subject);
    let extensions = 2 + extensions_levels(m.extensions);
    let names = if issuer >= subject {
        issuer
    } else {
        subject
    };
    let most = if names >= extensions {
        names
    } else {
        extensions
    };
    1 + most
}

impl Cert {
    /// The number of scopes, one inside the other, that the signed part of
    /// the certificate takes.
    pub fn nesting(&self) -> (n: usize)
        ensures
            n == cert_levels(self@),
            3 <= n <= 6,
    {
        let issuer: usize = self.issuer.nesting();
        let subject: usize = self.subject.nesting();
        let extensions: usize = 2 + self.extensions.nesting();
        let names: usize = if issuer >= subject {
            issuer
        } else {
            subject
        };
        let most: usize = if names >= extensions {
            names
        } else {
            extensions
        };
        1 + most
    }

    /// Whether the certificate names the algorithms that this library
    /// knows.
    pub fn knows_algorithms(&self) -> (b: bool)
        ensures
            b == algorithms_known(self@),
    {
        crate::cert::get_sign_algo(self.sign_algo).is_some() && crate::cert::get_pubkey_algo(
            self.pubkey_algo,
        ).is_some() && crate::cert::get_ec_curve_id(self.ec_curve_id).is_some()
    }

    /// Writes the part of the certificate that its signature is over: a
    /// SEQUENCE of version, serial number, signature algorithm, issuer,
    /// validity, subject, public key and extensions. The signature is not
    /// written. A certificate that names an algorithm other than ECDSA
    /// with SHA-256, EC public keys and prime256v1 fails with `Invalid`
    /// and nothing is written; so does, with `NoSpace`, a writer in which
    /// the scopes that the certificate takes cannot all be opened.
    pub fn encode(&self, w: &mut ASN1Writer) -> (r: Result<(), Error>)
        requires
            old(w).wf(),
        ensures
            final(w).wf(),
            !algorithms_known(self@) ==> r == Err::<(), Error>(Error::Invalid) && final(w)@ == old(
                w,
            )@,
            algorithms_known(self@) ==> nested_outcome(
                old(w)@,
                tbs_der(self@),
                cert_levels(self@),
                r,
                final(w)@,
            ),
    {
        if !self.knows_algorithms() {
            return Err(Error::Invalid);
        }
        if w.open_scopes() + self.nesting() > MAX_DEPTH {
            return Err(Error::NoSpace);
        }
        let ghost v0 = w@;
        let ghost m = self@;
        let ghost total = tbs_content(m);
        let ghost part1 = Some(version_der());
        let ghost part2 = tlv_opt(TAG_INTEGER, Some(integer_content(m.serial_no)));
        let ghost part3 = Some(sign_algo_der());
        let ghost part4 = dn_der(m.issuer);
        let ghost part5 = Some(validity_der(m.not_before, m.not_after));
        let ghost part6 = dn_der(m.subject);
        let ghost part7 = pubkey_der(m.pubkey);
        let ghost part8 = extensions_der(m.extensions);
        proof {
            assert(total == cat_opt(
                cat_opt(cat_opt(cat_opt(cat_opt(cat_opt(cat_opt(part1, part2), part3), part4), part5), part6), part7),
                part8,
            ));
            if total is Some {
                let a1 = part1->Some_0;
                let a2 = part2->Some_0;
                let a3 = part3->Some_0;
                let a4 = part4->Some_0;
                let a5 = part5->Some_0;
                let a6 = part6->Some_0;
                let a7 = part7->Some_0;
                let a8 = part8->Some_0;
                assert((a1 + a2).len() == a1.len() + a2.len());
                assert((a1 + a2 + a3).len() == (a1 + a2).len() + a3.len());
                assert((a1 + a2 + a3 + a4).len() == (a1 + a2 + a3).len() + a4.len());
                assert((a1 + a2 + a3 + a4 + a5).len() == (a1 + a2 + a3 + a4).len() + a5.len());
                assert((a1 + a2 + a3 + a4 + a5 + a6).len() == (a1 + a2 + a3 + a4 + a5).len()
                    + a6.len());
                assert((a1 + a2 + a3 + a4 + a5 + a6 + a7).len() == (a1 + a2 + a3 + a4 + a5
                    + a6).len() + a7.len());
                assert((a1 + a2 + a3 + a4 + a5 + a6 + a7 + a8).len() == (a1 + a2 + a3 + a4 + a5
                    + a6 + a7).len() + a8.len());
            }
        }
        let r = w.start_seq();
        proof {
            lemma_scope_opened(v0, TAG_SEQUENCE, total, r, w@);
        }
        if r.is_err() {
            return r;
        }
        let ghost vm = w@;
        let r = encode_version(w);
        proof {
            lemma_scope_step(v0, TAG_SEQUENCE, Seq::empty(), part1, total, vm, r, w@);
        }
        if r.is_err() {
            return r;
        }
        let ghost acc = part1->Some_0;
        proof {
            assert(Seq::<u8>::empty() + part1->Some_0 =~= acc);
        }
        let ghost vm = w@;
        let r = w.integer(self.serial_no.as_slice());
        proof {
            lemma_scope_step(v0, TAG_SEQUENCE, acc, part2, total, vm, r, w@);
        }
        if r.is_err() {
            return r;
        }
        let ghost acc = acc + part2->Some_0;
        let ghost vm = w@;
        let r = encode_sign_algo(w);
        proof {
            lemma_scope_step(v0, TAG_SEQUENCE, acc, part3, total, vm, r, w@);
        }
        if r.is_err() {
            return r;
        }
        let ghost acc = acc + part3->Some_0;
        let ghost vm = w@;
        let r = self.issuer.encode(w);
        proof {
            lemma_scope_step(v0, TAG_SEQUENCE, acc, part4, total, vm, r, w@);
        }
        if r.is_err() {
            return r;
        }
        let ghost acc = acc + part4->Some_0;
        let ghost vm = w@;
        let r = encode_validity(self.not_before, self.not_after, w);
        proof {
            lemma_scope_step(v0, TAG_SEQUENCE, acc, part5, total, vm, r, w@);
        }
        if r.is_err() {
            return r;
        }
        let ghost acc = acc + part5->Some_0;
        let ghost vm = w@;
        let r = self.subject.encode(w);
        proof {
            lemma_scope_step(v0, TAG_SEQUENCE, acc, part6, total, vm, r, w@);
        }
        if r.is_err() {
            return r;
        }
        let ghost acc = acc + part6->Some_0;
        let ghost vm = w@;
        let r = encode_pubkey(&self.pubkey, w);
        proof {
            lemma_scope_step(v0, TAG_SEQUENCE, acc, part7, total, vm, r, w@);
        }
        if r.is_err() {
            return r;
        }
        let ghost acc = acc + part7->Some_0;
        let ghost vm = w@;
        let r = self.extensions.encode(w);
        proof {
            lemma_scope_step(v0, TAG_SEQUENCE, acc, part8, total, vm, r, w@);
        }
        if r.is_err() {
            return r;
        }
        let ghost acc = acc + part8->Some_0;
        let ghost vm = w@;
        let r = w.end_seq();
        proof {
            lemma_scope_end(v0, TAG_SEQUENCE, acc, vm, r, w@);
        }
        r
    }

    /// Writes the DER that the signature is over to the front of `buf` and
    /// returns its length; the rest of `buf` stays as it is. Fails with
    /// `Invalid` for a certificate that names an algorithm this library
    /// does not know, and with `NoSpace` where the DER does not fit or a
    /// part of it is longer than 65535 bytes. On failure `buf` is
    /// unchanged.
    pub fn as_asn1(&self, buf: &mut [u8]) -> (r: Result<usize, Error>)
        ensures
            final(buf)@.len() == old(buf)@.len(),
            r == as_asn1_result(self@, old(buf)@.len()),
            final(buf)@ == as_asn1_bytes(self@, old(buf)@),
    {
        let mut w = ASN1Writer::new(buf.len());
        match self.encode(&mut w) {
            Err(e) => Err(e),
            Ok(()) => {
                let out = w.as_slice();
                assert(Seq::<u8>::empty() + tbs_der(self@)->Some_0 =~= out@);
                crate::utils::bytes::copy_into(buf, out);
                Ok(out.len())
            },
        }
    }
}

/// What `as_asn1` returns for a buffer of `cap` bytes.
pub open spec fn as_asn1_result(m: CertModel, cap: nat) -> Result<usize, Error> {
    if !algorithms_known(m) {
        Err(Error::Invalid)
    } else {
        match tbs_der(m) {
            Some(d) => if d.len() <= cap {
                Ok(d.len() as usize)
            } else {
                Err(Error::NoSpace)
            },
            None => Err(Error::NoSpace),
        }
    }
}

/// What `as_asn1` leaves in a buffer that held `before`.
pub open spec fn as_asn1_bytes(m: CertModel, before: Seq<u8>) -> Seq<u8> {
    match as_asn1_result(m, before.len()) {
        Ok(_) => tbs_der(m)->Some_0 + before.subrange(
            tbs_der(m)->Some_0.len() as int,
            before.len() as int,
        ),
        Err(_) => before,
    }
}

} // verus!
