//! Distinguished names survive their DER form: the names can be read back
//! from it, in their order.

use vstd::prelude::*;
use crate::cert::der::{der_tlv, TAG_OID, TAG_SEQUENCE, TAG_SET, TAG_UTF8_STRING};
use crate::cert::der_cert::{
    dn_entries_der, dn_entry_der, dn_value_text, hex_upper, is_matter_dn, oid_matter_dn,
};
use crate::cert::emit::lemma_hex_upper_len;

verus! {

/// The number that a hexadecimal digit in upper case stands for.
pub open spec fn digit_value(c: u8) -> nat {
    if c >= 0x41 {
        (c - 0x41 + 10) as nat
    } else {
        (c - 0x30) as nat
    }
}

/// The number that a text of hexadecimal digits spells, most significant
/// digit first.
pub open spec fn hex_value(text: Seq<u8>) -> nat
    decreases text.len(),
{
    if text.len() == 0 {
        0
    } else {
        hex_value(text.drop_last()) * 16 + digit_value(text.last())
    }
}

/// Sixteen to the power `n`.
pub open spec fn pow16(n: nat) -> nat
    decreases n,
{
    if n == 0 {
        1
    } else {
        16 * pow16((n - 1) as nat)
    }
}

/// The text of a number spells the number, where it has digits enough.
pub proof fn lemma_hex_value_of_text(v: nat, width: nat)
    requires
        v < pow16(width),
    ensures
        hex_value(hex_upper(v, width)) == v,
    decreases width,
{
    if width > 0 {
        let front = hex_upper(v / 16, (width - 1) as nat);
        let text = hex_upper(v, width);
        assert(text.drop_last() =~= front);
        lemma_hex_value_of_text(v / 16, (width - 1) as nat);
    }
}

/// The values of `pow16` for eight and sixteen digits.
pub proof fn lemma_pow16_values()
    ensures
        pow16(8) == 0x1_0000_0000,
        pow16(16) == 0x1_0000_0000_0000_0000,
{
    reveal_with_fuel(pow16, 18);
}

/// The distinguished names that a run of DER entries is read as: each
/// entry is a SET of 32 or 24 bytes of content, whose kind is the last arc
/// of its OID and whose value is what its text spells; or nothing where
/// the bytes are no such run.
pub open spec fn dn_of_der(b: Seq<u8>) -> Option<Seq<(u8, u64)>>
    decreases b.len(),
{
    if b.len() == 0 {
        Some(Seq::empty())
    } else if b.len() < 2 || b[0] != TAG_SET || !(b[1] == 32 || b[1] == 24) || b.len() < 2 + b[1] {
        None
    } else {
        let n = b[1] as int;
        let kind = (b[15] + 16) as u8;
        let value = hex_value(b.subrange(18, 2 + n)) as u64;
        match dn_of_der(b.subrange(2 + n, b.len() as int)) {
            None => None,
            Some(rest) => Some(seq![(kind, value)] + rest),
        }
    }
}

/// The names whose DER form can be read back: those that Matter defines,
/// with a CASE authenticated tag of at most 32 bits.
pub open spec fn der_readable(dn: Seq<(u8, u64)>) -> bool {
    forall|i: int|
        0 <= i < dn.len() ==> is_matter_dn((#[trigger] dn[i]).0) && (dn[i].0 == 22 ==> dn[i].1
            < 0x1_0000_0000)
}

/// The DER of a run of names is the DER of the first, then that of the
/// rest.
pub proof fn lemma_dn_entries_front(dn: Seq<(u8, u64)>)
    requires
        dn.len() > 0,
    ensures
        dn_entries_der(dn) == dn_entry_der(dn[0].0, dn[0].1) + dn_entries_der(
            dn.subrange(1, dn.len() as int),
        ),
    decreases dn.len(),
{
    let tail = dn.subrange(1, dn.len() as int);
    if dn.len() == 1 {
        assert(dn.drop_last() =~= Seq::<(u8, u64)>::empty());
        assert(tail =~= Seq::<(u8, u64)>::empty());
        assert(dn_entries_der(dn) =~= dn_entry_der(dn[0].0, dn[0].1) + dn_entries_der(tail));
    } else {
        lemma_dn_entries_front(dn.drop_last());
        assert(dn.drop_last().subrange(1, dn.len() - 1) =~= tail.drop_last());
        assert(tail.last() == dn.last());
        assert(dn.drop_last()[0] == dn[0]);
        assert(dn_entries_der(dn) =~= dn_entry_der(dn[0].0, dn[0].1) + dn_entries_der(tail));
    }
}

/// What the DER of one name looks like, byte for byte.
pub proof fn lemma_dn_entry_shape(kind: u8, value: u64)
    requires
        is_matter_dn(kind),
    ensures
        ({
            let e = dn_entry_der(kind, value);
            let w: int = if kind == 22 {
                8
            } else {
                16
            };
            &&& e.len() == 18 + w
            &&& e[0] == TAG_SET
            &&& e[1] == 16 + w
            &&& e[15] == kind - 16
            &&& e.subrange(18, 18 + w) == dn_value_text(kind, value)
        }),
{
    let text = dn_value_text(kind, value);
    let w: int = if kind == 22 {
        8
    } else {
        16
    };
    lemma_hex_upper_len((value % 0x1_0000_0000) as nat, 8);
    lemma_hex_upper_len(value as nat, 16);
    let oid = oid_matter_dn((kind - 16) as u8);
    let oid_d = der_tlv(TAG_OID, oid);
    let txt_d = der_tlv(TAG_UTF8_STRING, text);
    let inner = oid_d + txt_d;
    let seq_d = der_tlv(TAG_SEQUENCE, inner);
    let e = der_tlv(TAG_SET, seq_d);
    assert(oid_d =~= seq![TAG_OID, 10u8] + oid);
    assert(txt_d =~= seq![TAG_UTF8_STRING, w as u8] + text);
    assert(inner.len() == 14 + w);
    assert(seq_d =~= seq![TAG_SEQUENCE, (14 + w) as u8] + inner);
    assert(e =~= seq![TAG_SET, (16 + w) as u8] + seq_d);
    assert(e[15] == oid[9]);
    assert(e.subrange(18, 18 + w) =~= text);
}

/// Bytes that start like the DER of a name are read as that name, followed
/// by what the rest is read as.
pub proof fn lemma_read_entry(e: Seq<u8>, rest: Seq<u8>, kind: u8, value: u64, w: int)
    requires
        w == 8 || w == 16,
        e.len() == 18 + w,
        e[0] == TAG_SET,
        e[1] == 16 + w,
        e[15] == kind - 16,
        16 <= kind,
        hex_value(e.subrange(18, 18 + w)) == value,
    ensures
        dn_of_der(e + rest) == match dn_of_der(rest) {
            None => None::<Seq<(u8, u64)>>,
            Some(r) => Some(seq![(kind, value)] + r),
        },
{
    let b = e + rest;
    assert(b[0] == e[0]);
    assert(b[1] == e[1]);
    assert(b[15] == e[15]);
    assert(b.subrange(18, 18 + w) =~= e.subrange(18, 18 + w));
    assert(b.subrange(18 + w, b.len() as int) =~= rest);
}

/// What the text of the value of a name spells.
pub proof fn lemma_dn_text_value(kind: u8, value: u64)
    requires
        is_matter_dn(kind),
        kind == 22 ==> value < 0x1_0000_0000,
    ensures
        hex_value(dn_value_text(kind, value)) == value,
{
    lemma_pow16_values();
    if kind == 22 {
        lemma_hex_value_of_text((value % 0x1_0000_0000) as nat, 8);
    } else {
        lemma_hex_value_of_text(value as nat, 16);
    }
}

/// Distinguished names that are emitted as DER can be read back from it:
/// the same names, in the same order.
pub proof fn law_dn_der_round_trip(dn: Seq<(u8, u64)>)
    requires
        der_readable(dn),
    ensures
        dn_of_der(dn_entries_der(dn)) == Some(dn),
    decreases dn.len(),
{
    if dn.len() > 0 {
        let kind = dn[0].0;
        let value = dn[0].1;
        let tail = dn.subrange(1, dn.len() as int);
        let e = dn_entry_der(kind, value);
        lemma_dn_entries_front(dn);
        lemma_dn_entry_shape(kind, value);
        lemma_dn_text_value(kind, value);
        assert(der_readable(tail)) by {
            assert forall|i: int| 0 <= i < tail.len() implies is_matter_dn((#[trigger] tail[i]).0)
                && (tail[i].0 == 22 ==> tail[i].1 < 0x1_0000_0000) by {
                assert(tail[i] == dn[i + 1]);
            }
        }
        law_dn_der_round_trip(tail);
        let w: int = if kind == 22 {
            8
        } else {
            16
        };
        lemma_read_entry(e, dn_entries_der(tail), kind, value, w);
        assert(seq![(kind, value)] + tail =~= dn);
    } else {
        assert(dn =~= Seq::<(u8, u64)>::empty());
    }
}

} // verus!
