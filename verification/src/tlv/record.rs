//! Records over TLV: aggregates whose named fields are written, in declared
//! order, as the members of a structure or a list, each under a context
//! tag, and read back from such a container.

use vstd::prelude::*;
use crate::error::Error;
use crate::tlv::model::{Elem, TagType};
use crate::tlv::parser::{elems_view, find_ctx, lemma_find_ctx, TLVElement};
use crate::tlv::writer::TLVWriter;
use crate::utils::bytes::bytes_equal;

verus! {

/// The container that a record is written as.
#[derive(Debug, PartialEq, Eq, Clone, Copy, Structural)]
pub enum RecordKind {
    Struct,
    List,
}

/// How a record maps to TLV: the tag of its first field, its container, and
/// whether its fields may arrive in any order.
#[derive(Debug, PartialEq, Eq, Clone, Copy, Structural)]
pub struct TlvArgs {
    pub start: u8,
    pub datatype: RecordKind,
    pub unordered: bool,
}

impl Default for TlvArgs {
    fn default() -> (r: TlvArgs)
        ensures
            r.start == 0,
            r.datatype == RecordKind::Struct,
            !r.unordered,
    {
        TlvArgs { start: 0, datatype: RecordKind::Struct, unordered: false }
    }
}

/// The tags of the fields of a record, in declared order: a field with a
/// tag of its own has that tag; the others count up from `start`.
pub open spec fn assign_tags(start: int, overrides: Seq<Option<u8>>) -> Seq<int>
    decreases overrides.len(),
{
    if overrides.len() == 0 {
        Seq::<int>::empty()
    } else {
        match overrides[0] {
            Some(t) => seq![t as int] + assign_tags(
                start,
                overrides.subrange(1, overrides.len() as int),
            ),
            None => seq![start] + assign_tags(
                start + 1,
                overrides.subrange(1, overrides.len() as int),
            ),
        }
    }
}

/// The number of fields of a record that have no tag of their own.
pub open spec fn count_untagged(overrides: Seq<Option<u8>>) -> int
    decreases overrides.len(),
{
    if overrides.len() == 0 {
        0
    } else {
        (if overrides[0] is None {
            1int
        } else {
            0int
        }) + count_untagged(overrides.subrange(1, overrides.len() as int))
    }
}

/// The tags of the fields of a record, or nothing where the count from
/// `start` would pass 255.
pub fn field_tags(start: u8, overrides: &[Option<u8>]) -> (r: Option<Vec<u8>>)
    ensures
        start + count_untagged(overrides@) <= 256 ==> r is Some && r->Some_0@.len()
            == overrides@.len() && forall|i: int|
            0 <= i < overrides@.len() ==> (#[trigger] r->Some_0@[i]) as int == assign_tags(
                start as int,
                overrides@,
            )[i],
        start + count_untagged(overrides@) > 256 ==> r is None,
{
    let mut tags: Vec<u8> = Vec::new();
    let mut next: u16 = start as u16;
    let mut i: usize = 0;
    proof {
        assert(overrides@.subrange(0, overrides@.len() as int) =~= overrides@);
        lemma_assign_tags_len(start as int, overrides@);
    }
    while i < overrides.len()
        invariant
            i <= overrides.len(),
            tags@.len() == i,
            start <= next <= 256,
            next + count_untagged(overrides@.subrange(i as int, overrides@.len() as int)) == start
                + count_untagged(overrides@),
            assign_tags(start as int, overrides@).len() == overrides@.len(),
            forall|k: int| 0 <= k < i ==> (#[trigger] tags@[k]) as int == assign_tags(
                start as int,
                overrides@,
            )[k],
            forall|k: int|
                i <= k < overrides@.len() ==> #[trigger] assign_tags(start as int, overrides@)[k]
                    == assign_tags(
                    next as int,
                    overrides@.subrange(i as int, overrides@.len() as int),
                )[k - i],
        decreases overrides.len() - i,
    {
        let ghost cur = overrides@.subrange(i as int, overrides@.len() as int);
        let ghost rest = overrides@.subrange(i + 1, overrides@.len() as int);
        proof {
            assert(cur.subrange(1, cur.len() as int) =~= rest);
            assert(cur[0] == overrides@[i as int]);
            lemma_assign_tags_len(next as int, cur);
            lemma_assign_tags_len(next as int + 1, rest);
            lemma_assign_tags_len(next as int, rest);
        }
        match overrides[i] {
            Some(t) => {
                tags.push(t);
                assert forall|k: int| i + 1 <= k < overrides@.len() implies #[trigger] assign_tags(
                    start as int,
                    overrides@,
                )[k] == assign_tags(next as int, rest)[k - (i + 1)] by {
                    assert(assign_tags(next as int, cur)[k - i] == assign_tags(
                        next as int,
                        rest,
                    )[k - i - 1]);
                }
            },
            None => {
                if next > 255 {
                    proof {
                        lemma_count_untagged_nonneg(rest);
                    }
                    return None;
                }
                tags.push(next as u8);
                assert forall|k: int| i + 1 <= k < overrides@.len() implies #[trigger] assign_tags(
                    start as int,
                    overrides@,
                )[k] == assign_tags(next as int + 1, rest)[k - (i + 1)] by {
                    assert(assign_tags(next as int, cur)[k - i] == assign_tags(
                        next as int + 1,
                        rest,
                    )[k - i - 1]);
                }
                next = next + 1;
            },
        }
        i = i + 1;
    }
    Some(tags)
}

proof fn lemma_assign_tags_len(start: int, overrides: Seq<Option<u8>>)
    ensures
        assign_tags(start, overrides).len() == overrides.len(),
    decreases overrides.len(),
{
    if overrides.len() > 0 {
        let rest = overrides.subrange(1, overrides.len() as int);
        lemma_assign_tags_len(start, rest);
        lemma_assign_tags_len(start + 1, rest);
    }
}

proof fn lemma_count_untagged_nonneg(overrides: Seq<Option<u8>>)
    ensures
        count_untagged(overrides) >= 0,
    decreases overrides.len(),
{
    if overrides.len() > 0 {
        lemma_count_untagged_nonneg(overrides.subrange(1, overrides.len() as int));
    }
}

/// The member that an optional field is written as: none where it is
/// absent.
pub open spec fn opt_member(e: Option<Elem>) -> Seq<Elem> {
    match e {
        Some(x) => seq![x],
        None => Seq::empty(),
    }
}

/// The members that the fields of a record are written as: those that are
/// present, in declared order.
pub open spec fn present(fields: Seq<Option<Elem>>) -> Seq<Elem>
    decreases fields.len(),
{
    if fields.len() == 0 {
        Seq::empty()
    } else {
        present(fields.drop_last()) + opt_member(fields.last())
    }
}

/// Which member supplies each field when the members must arrive in the
/// order of the fields: reading from member `pos` on, a field takes the
/// member at hand if that has the field's context tag, and is absent
/// otherwise.
pub open spec fn match_ordered(children: Seq<Elem>, pos: int, tags: Seq<u8>) -> Seq<Option<int>>
    decreases tags.len(),
{
    if tags.len() == 0 {
        Seq::<Option<int>>::empty()
    } else if 0 <= pos < children.len() && children[pos].tag == TagType::Context(tags[0]) {
        seq![Some(pos)] + match_ordered(children, pos + 1, tags.subrange(1, tags.len() as int))
    } else {
        seq![None] + match_ordered(children, pos, tags.subrange(1, tags.len() as int))
    }
}

/// Which member supplies each field when the members may arrive in any
/// order: the first member with the field's context tag.
pub open spec fn match_unordered(children: Seq<Elem>, tags: Seq<u8>) -> Seq<Option<int>> {
    Seq::new(tags.len(), |i: int| find_ctx(children, tags[i]))
}

/// Which member supplies each field of a record.
pub open spec fn match_members(children: Seq<Elem>, tags: Seq<u8>, unordered: bool) -> Seq<
    Option<int>,
> {
    if unordered {
        match_unordered(children, tags)
    } else {
        match_ordered(children, 0, tags)
    }
}

/// Ordered matching gives one answer per field, each a member in range with
/// the field's tag.
pub proof fn lemma_match_ordered(children: Seq<Elem>, pos: int, tags: Seq<u8>)
    requires
        0 <= pos,
    ensures
        match_ordered(children, pos, tags).len() == tags.len(),
        forall|i: int|
            0 <= i < tags.len() ==> match (#[trigger] match_ordered(children, pos, tags)[i]) {
                Some(j) => pos <= j < children.len() && children[j].tag == TagType::Context(
                    tags[i],
                ),
                None => true,
            },
    decreases tags.len(),
{
    if tags.len() > 0 {
        let rest = tags.subrange(1, tags.len() as int);
        let m = match_ordered(children, pos, tags);
        if 0 <= pos < children.len() && children[pos].tag == TagType::Context(tags[0]) {
            lemma_match_ordered(children, pos + 1, rest);
            let r = match_ordered(children, pos + 1, rest);
            assert forall|i: int| 0 <= i < tags.len() implies match (#[trigger] m[i]) {
                Some(j) => pos <= j < children.len() && children[j].tag == TagType::Context(
                    tags[i],
                ),
                None => true,
            } by {
                if i > 0 {
                    assert(m[i] == r[i - 1]);
                    assert(tags[i] == rest[i - 1]);
                }
            }
        } else {
            lemma_match_ordered(children, pos, rest);
            let r = match_ordered(children, pos, rest);
            assert forall|i: int| 0 <= i < tags.len() implies match (#[trigger] m[i]) {
                Some(j) => pos <= j < children.len() && children[j].tag == TagType::Context(
                    tags[i],
                ),
                None => true,
            } by {
                if i > 0 {
                    assert(m[i] == r[i - 1]);
                    assert(tags[i] == rest[i - 1]);
                }
            }
        }
    }
}

/// Says which member supplies each field of a record with the given field
/// tags: for each field the index of its member, or nothing where the field
/// is absent.
pub fn match_fields(children: &Vec<TLVElement>, tags: &[u8], unordered: bool) -> (r: Vec<
    Option<usize>,
>)
    ensures
        r@.len() == tags@.len(),
        forall|i: int|
            0 <= i < tags@.len() ==> match (#[trigger] r@[i]) {
                Some(j) => j < children@.len() && match_members(
                    elems_view(children@),
                    tags@,
                    unordered,
                )[i] == Some(j as int),
                None => match_members(elems_view(children@), tags@, unordered)[i] is None,
            },
{
    let ghost kids = elems_view(children@);
    let mut out: Vec<Option<usize>> = Vec::new();
    let mut pos: usize = 0;
    let mut i: usize = 0;
    proof {
        assert(tags@.subrange(0, tags@.len() as int) =~= tags@);
        lemma_match_ordered(kids, 0, tags@);
    }
    while i < tags.len()
        invariant
            i <= tags.len(),
            pos <= children.len(),
            out@.len() == i,
            kids == elems_view(children@),
            match_ordered(kids, 0, tags@).len() == tags@.len(),
            forall|k: int|
                0 <= k < i ==> match (#[trigger] out@[k]) {
                    Some(j) => j < children@.len() && match_members(kids, tags@, unordered)[k]
                        == Some(j as int),
                    None => match_members(kids, tags@, unordered)[k] is None,
                },
            !unordered ==> forall|k: int|
                i <= k < tags@.len() ==> #[trigger] match_ordered(kids, 0, tags@)[k]
                    == match_ordered(
                    kids,
                    pos as int,
                    tags@.subrange(i as int, tags@.len() as int),
                )[k - i],
        decreases tags.len() - i,
    {
        let tag: u8 = tags[i];
        if unordered {
            let mut j: usize = 0;
            let mut found: Option<usize> = None;
            proof {
                lemma_find_ctx(kids, tag);
            }
            while j < children.len()
                invariant_except_break
                    j <= children.len(),
                    kids == elems_view(children@),
                    found is None,
                    forall|k: int| 0 <= k < j ==> (#[trigger] kids[k]).tag != TagType::Context(tag),
                ensures
                    match found {
                        Some(x) => x < children.len() && kids[x as int].tag == TagType::Context(
                            tag,
                        ) && forall|k: int|
                            0 <= k < x ==> (#[trigger] kids[k]).tag != TagType::Context(tag),
                        None => forall|k: int|
                            0 <= k < children.len() ==> (#[trigger] kids[k]).tag
                                != TagType::Context(tag),
                    },
                decreases children.len() - j,
            {
                assert(kids[j as int] == children@[j as int]@);
                if children[j].check_ctx_tag(tag) {
                    found = Some(j);
                    break ;
                }
                j = j + 1;
            }
            proof {
                match find_ctx(kids, tag) {
                    Some(x) => {
                        match found {
                            Some(y) => {
                                if x < y as int {
                                    assert(kids[x].tag != TagType::Context(tag));
                                }
                                if (y as int) < x {
                                    assert(kids[y as int].tag != TagType::Context(tag));
                                }
                            },
                            None => {
                                assert(kids[x].tag != TagType::Context(tag));
                            },
                        }
                    },
                    None => {
                        match found {
                            Some(y) => {
                                assert(kids[y as int].tag != TagType::Context(tag));
                            },
                            None => {},
                        }
                    },
                }
            }
            out.push(found);
        } else {
            let ghost cur = tags@.subrange(i as int, tags@.len() as int);
            let ghost rest = tags@.subrange(i + 1, tags@.len() as int);
            proof {
                assert(cur.subrange(1, cur.len() as int) =~= rest);
                assert(cur[0] == tag);
                lemma_match_ordered(kids, pos as int, rest);
                lemma_match_ordered(kids, pos as int + 1, rest);
                if pos < children.len() {
                    assert(kids[pos as int] == children@[pos as int]@);
                }
            }
            if pos < children.len() && children[pos].check_ctx_tag(tag) {
                out.push(Some(pos));
                proof {
                    assert forall|k: int| i + 1 <= k < tags@.len() implies #[trigger] match_ordered(
                        kids,
                        0,
                        tags@,
                    )[k] == match_ordered(kids, pos as int + 1, rest)[k - (i + 1)] by {
                        assert(match_ordered(kids, pos as int, cur)[k - i] == match_ordered(
                            kids,
                            pos as int + 1,
                            rest,
                        )[k - i - 1]);
                    }
                }
                pos = pos + 1;
            } else {
                out.push(None);
                proof {
                    assert forall|k: int| i + 1 <= k < tags@.len() implies #[trigger] match_ordered(
                        kids,
                        0,
                        tags@,
                    )[k] == match_ordered(kids, pos as int, rest)[k - (i + 1)] by {
                        assert(match_ordered(kids, pos as int, cur)[k - i] == match_ordered(
                            kids,
                            pos as int,
                            rest,
                        )[k - i - 1]);
                    }
                }
            }
        }
        i = i + 1;
    }
    out
}

/// Opens the container of a record.
pub fn start_record(tw: &mut TLVWriter, kind: RecordKind, tag: TagType) -> (r: Result<(), Error>)
    ensures
        final(tw).capacity() == old(tw).capacity(),
        crate::tlv::writer::tagged_outcome(
            tag,
            old(tw)@,
            old(tw).capacity(),
            crate::tlv::model::header_bytes(tag, record_code(kind)),
            r,
            final(tw)@,
        ),
{
    match kind {
        RecordKind::Struct => tw.start_struct(tag),
        RecordKind::List => tw.start_list(tag),
    }
}

/// The element type of the container of a record.
pub open spec fn record_code(kind: RecordKind) -> u8 {
    match kind {
        RecordKind::Struct => crate::tlv::model::TYPE_STRUCT,
        RecordKind::List => crate::tlv::model::TYPE_LIST,
    }
}

/// The present fields of two runs of fields are those of the first, then
/// those of the second.
pub proof fn lemma_present_concat(a: Seq<Option<Elem>>, b: Seq<Option<Elem>>)
    ensures
        present(a + b) == present(a) + present(b),
    decreases b.len(),
{
    if b.len() == 0 {
        assert(a + b =~= a);
        assert(present(a) + present(b) =~= present(a));
    } else {
        lemma_present_concat(a, b.drop_last());
        assert((a + b).drop_last() =~= a + b.drop_last());
        assert((a + b).last() == b.last());
        assert(present(a + b) =~= present(a) + present(b));
    }
}

/// The present fields of a run with one field.
pub proof fn lemma_present_one(f: Option<Elem>)
    ensures
        present(seq![f]) == opt_member(f),
{
    assert(seq![f].drop_last() =~= Seq::<Option<Elem>>::empty());
    assert(present(Seq::<Option<Elem>>::empty()) =~= Seq::<Elem>::empty());
    assert(seq![f].last() == f);
    assert(present(seq![f]) =~= opt_member(f));
}

/// Each field that is present carries the context tag of its place.
pub open spec fn tagged_fields(fields: Seq<Option<Elem>>, tags: Seq<u8>) -> bool {
    &&& fields.len() == tags.len()
    &&& forall|i: int|
        0 <= i < fields.len() ==> ((#[trigger] fields[i]) matches Some(e) ==> e.tag
            == TagType::Context(tags[i]))
}

/// No two fields have the same tag.
pub open spec fn distinct_tags(tags: Seq<u8>) -> bool {
    forall|i: int, j: int| 0 <= i < j < tags.len() ==> tags[i] != tags[j]
}

/// The first member that a run of fields is written as is one of the
/// fields.
pub proof fn lemma_first_of_present(s: Seq<Option<Elem>>)
    requires
        present(s).len() > 0,
    ensures
        exists|j: int| 0 <= j < s.len() && s[j] == Some(present(s)[0]),
    decreases s.len(),
{
    if s.len() > 0 {
        let front = s.drop_last();
        if present(front).len() > 0 {
            lemma_first_of_present(front);
            let j = choose|j: int| 0 <= j < front.len() && front[j] == Some(present(front)[0]);
            assert(s[j] == Some(present(s)[0]));
        } else {
            assert(s[s.len() - 1] == Some(present(s)[0]));
        }
    }
}

/// Reading back, in order, what the fields of a record were written as
/// gives each field its own member, and no member to a field that is
/// absent, provided that no two fields have the same tag. The statement is
/// for the fields from `k` on, read from the member where they start.
pub proof fn lemma_match_suffix(fields: Seq<Option<Elem>>, tags: Seq<u8>, k: int)
    requires
        tagged_fields(fields, tags),
        distinct_tags(tags),
        0 <= k <= fields.len(),
    ensures
        match_ordered(
            present(fields),
            present(fields.subrange(0, k)).len() as int,
            tags.subrange(k, tags.len() as int),
        ).len() == fields.len() - k,
        forall|i: int|
            k <= i < fields.len() ==> member_at(
                present(fields),
                #[trigger] match_ordered(
                    present(fields),
                    present(fields.subrange(0, k)).len() as int,
                    tags.subrange(k, tags.len() as int),
                )[i - k],
            ) == fields[i],
    decreases fields.len() - k,
{
    let n = fields.len() as int;
    let p = present(fields);
    let pos = present(fields.subrange(0, k)).len() as int;
    let tk = tags.subrange(k, n);
    if k < n {
        let a = fields.subrange(0, k);
        let r = fields.subrange(k + 1, n);
        let rest = tags.subrange(k + 1, n);
        assert(fields =~= a + seq![fields[k]] + r);
        lemma_present_concat(a + seq![fields[k]], r);
        lemma_present_concat(a, seq![fields[k]]);
        lemma_present_one(fields[k]);
        assert(fields.subrange(0, k + 1) =~= a + seq![fields[k]]);
        assert(tk[0] == tags[k]);
        assert(tk.subrange(1, tk.len() as int) =~= rest);
        lemma_match_suffix(fields, tags, k + 1);
        match fields[k] {
            Some(e) => {
                assert(p =~= present(a) + seq![e] + present(r));
                assert(p[pos] == e);
                let m = match_ordered(p, pos, tk);
                let m1 = match_ordered(p, pos + 1, rest);
                assert(m == seq![Some(pos)] + m1);
                assert forall|i: int| k <= i < n implies member_at(p, #[trigger] m[i - k])
                    == fields[i] by {
                    if i > k {
                        assert(m[i - k] == m1[i - (k + 1)]);
                    }
                }
            },
            None => {
                assert(p =~= present(a) + present(r));
                if pos < p.len() {
                    assert(p[pos] == present(r)[0]);
                    lemma_first_of_present(r);
                    let j = choose|j: int| 0 <= j < r.len() && r[j] == Some(present(r)[0]);
                    assert(fields[k + 1 + j] == Some(p[pos]));
                    assert(p[pos].tag == TagType::Context(tags[k + 1 + j]));
                    assert(tags[k + 1 + j] != tags[k]);
                }
                let m = match_ordered(p, pos, tk);
                let m1 = match_ordered(p, pos, rest);
                assert(m == seq![None] + m1);
                assert forall|i: int| k <= i < n implies member_at(p, #[trigger] m[i - k])
                    == fields[i] by {
                    if i > k {
                        assert(m[i - k] == m1[i - (k + 1)]);
                    }
                }
            },
        }
    } else {
        assert(tk =~= Seq::<u8>::empty());
    }
}

/// Reading back, in order, what the fields of a record were written as
/// gives each field its own member, and no member to a field that is
/// absent, provided that no two fields have the same tag.
pub proof fn lemma_match_present(fields: Seq<Option<Elem>>, tags: Seq<u8>)
    requires
        tagged_fields(fields, tags),
        distinct_tags(tags),
    ensures
        match_ordered(present(fields), 0, tags).len() == fields.len(),
        forall|i: int|
            0 <= i < fields.len() ==> member_at(
                present(fields),
                #[trigger] match_ordered(present(fields), 0, tags)[i],
            ) == fields[i],
{
    lemma_match_suffix(fields, tags, 0);
    assert(fields.subrange(0, 0) =~= Seq::<Option<Elem>>::empty());
    assert(present(fields.subrange(0, 0)).len() == 0);
    assert(tags.subrange(0, tags.len() as int) =~= tags);
    let m = match_ordered(present(fields), 0, tags);
    assert forall|i: int| 0 <= i < fields.len() implies member_at(present(fields), #[trigger] m[i])
        == fields[i] by {
        assert(m[i] == m[i - 0]);
    }
}

/// The member that supplies a field, or nothing where the field is absent.
pub open spec fn member_at(children: Seq<Elem>, m: Option<int>) -> Option<Elem> {
    match m {
        Some(j) => Some(children[j]),
        None => None,
    }
}

} // verus!

verus! {

/// The context tags of the fields of a record, in declared order.
pub open spec fn record_tags(start: u8, overrides: Seq<Option<u8>>) -> Seq<u8> {
    Seq::new(overrides.len(), |i: int| assign_tags(start as int, overrides)[i] as u8)
}

/// Fields without tags of their own.
pub open spec fn untagged(n: nat) -> Seq<Option<u8>> {
    Seq::new(n, |i: int| None::<u8>)
}

/// Fields without tags of their own count up from the start.
pub proof fn lemma_assign_untagged(start: int, n: nat, i: int)
    requires
        0 <= i < n,
    ensures
        assign_tags(start, untagged(n)).len() == n,
        assign_tags(start, untagged(n))[i] == start + i,
        count_untagged(untagged(n)) == n,
    decreases n,
{
    let s = untagged(n);
    assert(s.subrange(1, s.len() as int) =~= untagged((n - 1) as nat));
    lemma_assign_tags_len(start, s);
    if n > 1 {
        if i > 0 {
            lemma_assign_untagged(start + 1, (n - 1) as nat, i - 1);
        } else {
            lemma_assign_untagged(start + 1, (n - 1) as nat, 0);
        }
    } else {
        assert(untagged(0) =~= Seq::<Option<u8>>::empty());
        assert(count_untagged(untagged(0)) == 0);
    }
}

/// The tags of a record of `n` fields without tags of their own are
/// `start`, `start + 1` and so on.
pub proof fn lemma_record_tags_untagged(start: u8, n: nat)
    requires
        start + n <= 256,
    ensures
        record_tags(start, untagged(n)).len() == n,
        count_untagged(untagged(n)) == n,
        forall|i: int| 0 <= i < n ==> #[trigger] record_tags(start, untagged(n))[i] == start + i,
{
    if n > 0 {
        lemma_assign_untagged(start as int, n, 0);
    } else {
        assert(untagged(0) =~= Seq::<Option<u8>>::empty());
        assert(count_untagged(untagged(0)) == 0);
    }
    assert forall|i: int| 0 <= i < n implies #[trigger] record_tags(start, untagged(n))[i] == start
        + i by {
        lemma_assign_untagged(start as int, n, i);
    }
}

/// How a record is laid out in TLV: the element type of its container, the
/// context tags of its fields, and whether its fields may arrive in any
/// order.
pub struct RecordLayout {
    pub code: u8,
    pub tags: Vec<u8>,
    pub unordered: bool,
}

/// The layout by which a record is written: its container and the tags of
/// its fields, in declared order. There is none where the tags would pass
/// 255.
pub fn derive_totlv(args: &TlvArgs, overrides: &[Option<u8>]) -> (r: Option<RecordLayout>)
    ensures
        args.start + count_untagged(overrides@) <= 256 ==> r is Some && r->Some_0.code
            == record_code(args.datatype) && r->Some_0.tags@ == record_tags(
            args.start,
            overrides@,
        ) && r->Some_0.unordered == args.unordered,
        args.start + count_untagged(overrides@) > 256 ==> r is None,
{
    let code: u8 = match args.datatype {
        RecordKind::Struct => crate::tlv::model::TYPE_STRUCT,
        RecordKind::List => crate::tlv::model::TYPE_LIST,
    };
    match field_tags(args.start, overrides) {
        Some(tags) => {
            assert(tags@ =~= record_tags(args.start, overrides@));
            Some(RecordLayout { code, tags, unordered: args.unordered })
        },
        None => None,
    }
}

/// Which member of an element supplies each field of a record. With
/// ordered fields the element must be the container of the record, or the
/// type is mismatched. With unordered fields each is looked up by its tag
/// in whatever the element is, and none is found in an element that is no
/// container. Where the tags of the record pass 255 the record is
/// `Invalid`.
pub open spec fn record_members(args: TlvArgs, overrides: Seq<Option<u8>>, e: Elem) -> Result<
    Seq<Option<int>>,
    Error,
> {
    if !args.unordered && e.code != record_code(args.datatype) {
        Err(Error::TLVTypeMismatch)
    } else if args.start + count_untagged(overrides) > 256 {
        Err(Error::Invalid)
    } else if args.unordered && !crate::tlv::model::is_container(e.code) {
        Ok(Seq::new(overrides.len(), |i: int| None::<int>))
    } else {
        Ok(match_members(e.children, record_tags(args.start, overrides), args.unordered))
    }
}

/// Says which member of an element supplies each field of a record: for
/// each field, in declared order, the index of its member, or nothing
/// where the field is absent. With ordered fields, which is the default,
/// the element must be the container of the record and the members must
/// arrive in the order of the fields; with unordered fields each is looked
/// up by its tag, in whatever container the element is.
pub fn derive_fromtlv(args: &TlvArgs, overrides: &[Option<u8>], t: &TLVElement) -> (r: Result<
    Vec<Option<usize>>,
    Error,
>)
    ensures
        match record_members(*args, overrides@, t@) {
            Err(e) => r == Err::<Vec<Option<usize>>, Error>(e),
            Ok(m) => r is Ok && r->Ok_0@.len() == overrides@.len() && forall|i: int|
                0 <= i < overrides@.len() ==> match (#[trigger] r->Ok_0@[i]) {
                    Some(j) => j < t.children@.len() && m[i] == Some(j as int),
                    None => m[i] is None,
                },
        },
{
    let code: u8 = match args.datatype {
        RecordKind::Struct => crate::tlv::model::TYPE_STRUCT,
        RecordKind::List => crate::tlv::model::TYPE_LIST,
    };
    if !args.unordered && t.code != code {
        return Err(Error::TLVTypeMismatch);
    }
    let layout = match derive_totlv(args, overrides) {
        Some(l) => l,
        None => {
            return Err(Error::Invalid);
        },
    };
    if args.unordered && !crate::tlv::parser::code_is_container(t.code) {
        let mut none: Vec<Option<usize>> = Vec::new();
        let mut i: usize = 0;
        while i < overrides.len()
            invariant
                i <= overrides.len(),
                none@.len() == i,
                forall|k: int| 0 <= k < i ==> none@[k] == None::<usize>,
            decreases overrides.len() - i,
        {
            none.push(None);
            i = i + 1;
        }
        return Ok(none);
    }
    proof {
        crate::tlv::parser::lemma_children_view(*t);
    }
    Ok(match_fields(&t.children, layout.tags.as_slice(), layout.unordered))
}

} // verus!

verus! {

/// `n` fields without tags of their own.
pub fn no_overrides(n: usize) -> (v: Vec<Option<u8>>)
    ensures
        v@ == untagged(n as nat),
{
    let mut v: Vec<Option<u8>> = Vec::new();
    let mut i: usize = 0;
    while i < n
        invariant
            i <= n,
            v@.len() == i,
            forall|k: int| 0 <= k < i ==> v@[k] == None::<u8>,
        decreases n - i,
    {
        v.push(None);
        i = i + 1;
    }
    assert(v@ =~= untagged(n as nat));
    v
}

} // verus!

verus! {

/// A value as it is written for an option of a record: a number, a text,
/// or anything else.
#[derive(Debug)]
pub enum ArgLit {
    Int(u8),
    Str(Vec<u8>),
    Other,
}

/// What a value written for an option holds.
pub enum ArgLitModel {
    Int(u8),
    Str(Seq<u8>),
    Other,
}

impl View for ArgLit {
    type V = ArgLitModel;

    open spec fn view(&self) -> ArgLitModel {
        match self {
            ArgLit::Int(n) => ArgLitModel::Int(*n),
            ArgLit::Str(s) => ArgLitModel::Str(s@),
            ArgLit::Other => ArgLitModel::Other,
        }
    }
}

/// An option of a record as it is written: a name and a value.
#[derive(Debug)]
pub struct TlvArg {
    pub name: Vec<u8>,
    pub value: ArgLit,
}

/// What an option of a record holds.
pub struct TlvArgModel {
    pub name: Seq<u8>,
    pub value: ArgLitModel,
}

impl View for TlvArg {
    type V = TlvArgModel;

    open spec fn view(&self) -> TlvArgModel {
        TlvArgModel { name: self.name@, value: self.value@ }
    }
}

/// What a run of options holds.
pub open spec fn args_view(s: Seq<TlvArg>) -> Seq<TlvArgModel> {
    Seq::new(s.len(), |i: int| s[i]@)
}

/// What a run of values holds.
pub open spec fn lits_view(s: Seq<ArgLit>) -> Seq<ArgLitModel> {
    Seq::new(s.len(), |i: int| s[i]@)
}

/// The name `start`.
pub open spec fn name_start() -> Seq<u8> {
    seq![0x73u8, 0x74u8, 0x61u8, 0x72u8, 0x74u8]
}

/// The name `datatype`.
pub open spec fn name_datatype() -> Seq<u8> {
    seq![0x64u8, 0x61u8, 0x74u8, 0x61u8, 0x74u8, 0x79u8, 0x70u8, 0x65u8]
}

/// The name `unordered`.
pub open spec fn name_unordered() -> Seq<u8> {
    seq![0x75u8, 0x6eu8, 0x6fu8, 0x72u8, 0x64u8, 0x65u8, 0x72u8, 0x65u8, 0x64u8]
}

/// The text `struct`.
pub open spec fn text_struct() -> Seq<u8> {
    seq![0x73u8, 0x74u8, 0x72u8, 0x75u8, 0x63u8, 0x74u8]
}

/// The text `list`.
pub open spec fn text_list() -> Seq<u8> {
    seq![0x6cu8, 0x69u8, 0x73u8, 0x74u8]
}

/// The container that a text names.
pub open spec fn kind_named(text: Seq<u8>) -> Option<RecordKind> {
    if text == text_struct() {
        Some(RecordKind::Struct)
    } else if text == text_list() {
        Some(RecordKind::List)
    } else {
        None
    }
}

/// What one option makes of the mapping of a record. `start` with a number
/// sets the tag of the first field; `datatype` with a text sets the
/// container, and is `Invalid` where the text names none; `unordered`,
/// whatever its value, lets the fields arrive in any order. An option of
/// another name, and a value of another form, changes nothing.
pub open spec fn with_arg(t: TlvArgs, a: TlvArgModel) -> Result<TlvArgs, Error> {
    if a.name == name_start() {
        match a.value {
            ArgLitModel::Int(n) => Ok(TlvArgs { start: n, ..t }),
            _ => Ok(t),
        }
    } else if a.name == name_datatype() {
        match a.value {
            ArgLitModel::Str(s) => match kind_named(s) {
                Some(k) => Ok(TlvArgs { datatype: k, ..t }),
                None => Err(Error::Invalid),
            },
            _ => Ok(t),
        }
    } else if a.name == name_unordered() {
        Ok(TlvArgs { unordered: true, ..t })
    } else {
        Ok(t)
    }
}

/// The mapping of a record that a run of options describes: the options
/// are taken in order, each on what the ones before it left, from the
/// mapping that starts at tag 0, in a structure, with ordered fields. The
/// first option that is invalid gives the error.
pub open spec fn tlvargs_of(args: Seq<TlvArgModel>) -> Result<TlvArgs, Error>
    decreases args.len(),
{
    if args.len() == 0 {
        Ok(TlvArgs { start: 0, datatype: RecordKind::Struct, unordered: false })
    } else {
        match tlvargs_of(args.drop_last()) {
            Err(e) => Err(e),
            Ok(t) => with_arg(t, args.last()),
        }
    }
}

/// The first number among the values.
pub open spec fn first_int(lits: Seq<ArgLitModel>) -> Option<u8>
    decreases lits.len(),
{
    if lits.len() == 0 {
        None
    } else {
        match lits[0] {
            ArgLitModel::Int(n) => Some(n),
            _ => first_int(lits.subrange(1, lits.len() as int)),
        }
    }
}

/// The container that a text names.
fn kind_of_text(text: &[u8]) -> (r: Option<RecordKind>)
    ensures
        r == kind_named(text@),
{
    let s: [u8; 6] = [0x73, 0x74, 0x72, 0x75, 0x63, 0x74];
    let l: [u8; 4] = [0x6c, 0x69, 0x73, 0x74];
    assert(s@ =~= text_struct());
    assert(l@ =~= text_list());
    if bytes_equal(text, s.as_slice()) {
        Some(RecordKind::Struct)
    } else if bytes_equal(text, l.as_slice()) {
        Some(RecordKind::List)
    } else {
        None
    }
}

/// What one option makes of the mapping of a record.
fn apply_arg(t: TlvArgs, a: &TlvArg) -> (r: Result<TlvArgs, Error>)
    ensures
        r == with_arg(t, a@),
{
    let start: [u8; 5] = [0x73, 0x74, 0x61, 0x72, 0x74];
    let datatype: [u8; 8] = [0x64, 0x61, 0x74, 0x61, 0x74, 0x79, 0x70, 0x65];
    let unordered: [u8; 9] = [0x75, 0x6e, 0x6f, 0x72, 0x64, 0x65, 0x72, 0x65, 0x64];
    assert(start@ =~= name_start());
    assert(datatype@ =~= name_datatype());
    assert(unordered@ =~= name_unordered());
    if bytes_equal(a.name.as_slice(), start.as_slice()) {
        match &a.value {
            ArgLit::Int(n) => Ok(TlvArgs { start: *n, datatype: t.datatype, unordered: t.unordered }),
            _ => Ok(t),
        }
    } else if bytes_equal(a.name.as_slice(), datatype.as_slice()) {
        match &a.value {
            ArgLit::Str(s) => match kind_of_text(s.as_slice()) {
                Some(k) => Ok(TlvArgs { start: t.start, datatype: k, unordered: t.unordered }),
                None => Err(Error::Invalid),
            },
            _ => Ok(t),
        }
    } else if bytes_equal(a.name.as_slice(), unordered.as_slice()) {
        Ok(TlvArgs { start: t.start, datatype: t.datatype, unordered: true })
    } else {
        Ok(t)
    }
}

/// The mapping of a record that its options describe.
pub fn parse_tlvargs(args: &[TlvArg]) -> (r: Result<TlvArgs, Error>)
    ensures
        r == tlvargs_of(args_view(args@)),
{
    let mut acc: Result<TlvArgs, Error> = Ok(
        TlvArgs { start: 0, datatype: RecordKind::Struct, unordered: false },
    );
    let mut i: usize = 0;
    let ghost all = args_view(args@);
    while i < args.len()
        invariant
            i <= args.len(),
            all == args_view(args@),
            acc == tlvargs_of(all.subrange(0, i as int)),
        decreases args.len() - i,
    {
        proof {
            assert(all.subrange(0, i + 1).drop_last() =~= all.subrange(0, i as int));
            assert(all.subrange(0, i + 1).last() == args@[i as int]@);
        }
        acc = match acc {
            Ok(t) => apply_arg(t, &args[i]),
            Err(e) => Err(e),
        };
        i = i + 1;
    }
    assert(all.subrange(0, args.len() as int) =~= all);
    acc
}

/// The tag that a field has of its own: the first number among the values
/// written for it.
pub fn parse_tag_val(lits: &[ArgLit]) -> (r: Option<u8>)
    ensures
        r == first_int(lits_view(lits@)),
{
    let ghost all = lits_view(lits@);
    let mut i: usize = 0;
    assert(all.subrange(0, all.len() as int) =~= all);
    while i < lits.len()
        invariant
            i <= lits.len(),
            all == lits_view(lits@),
            first_int(all) == first_int(all.subrange(i as int, all.len() as int)),
        decreases lits.len() - i,
    {
        let ghost cur = all.subrange(i as int, all.len() as int);
        proof {
            assert(cur[0] == lits@[i as int]@);
            assert(cur.subrange(1, cur.len() as int) =~= all.subrange(i + 1, all.len() as int));
        }
        match &lits[i] {
            ArgLit::Int(n) => {
                return Some(*n);
            },
            _ => {},
        }
        i = i + 1;
    }
    None
}

} // verus!
