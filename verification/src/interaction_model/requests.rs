//! The requests of the interaction model, read from TLV.

use vstd::prelude::*;
use crate::cert::model::{elem_bool, elem_u16, elem_u32, elem_u64, error_of, first_error, optional, required};
use crate::error::Error;
use crate::interaction_model::messages::{widen_leaf, GenericPath};
use crate::tlv::model::{Elem, TYPE_ARRAY, TYPE_LIST, TYPE_STRUCT};
use crate::tlv::parser::{elems_view, lemma_children_view, TLVElement};
use crate::tlv::record::{match_fields, match_ordered, member_at};

verus! {

/// The tags of the fields of the path of an attribute: tag compression,
/// node, endpoint, cluster, attribute, list index.
pub open spec fn attr_path_tags() -> Seq<u8> {
    seq![0u8, 1u8, 2u8, 3u8, 4u8, 5u8]
}

/// What a field of a record is read as where it is present.
pub open spec fn field<T>(c: Seq<Elem>, m: Option<int>, read: spec_fn(Elem) -> Result<T, Error>)
    -> Option<Result<T, Error>> {
    match member_at(c, m) {
        Some(e) => Some(read(e)),
        None => None,
    }
}

/// The path that a list element is read as: endpoint, cluster and
/// attribute under the context tags 2, 3 and 4, each a wildcard where it
/// is absent. The other fields of the list are read and not kept.
pub open spec fn attr_path_of_elem(e: Elem) -> Result<GenericPath, Error> {
    if e.code != TYPE_LIST {
        Err(Error::TLVTypeMismatch)
    } else {
        let c = e.children;
        let m = match_ordered(c, 0, attr_path_tags());
        let f0 = optional(field(c, m[0], |x: Elem| elem_bool(x)));
        let f1 = optional(field(c, m[1], |x: Elem| elem_u64(x)));
        let f2 = optional(field(c, m[2], |x: Elem| elem_u16(x)));
        let f3 = optional(field(c, m[3], |x: Elem| elem_u32(x)));
        let f4 = optional(field(c, m[4], |x: Elem| elem_u16(x)));
        let f5 = optional(field(c, m[5], |x: Elem| elem_u16(x)));
        match first_error(
            seq![error_of(f0), error_of(f1), error_of(f2), error_of(f3), error_of(f4), error_of(f5)],
        ) {
            Some(x) => Err(x),
            None => Ok(
                GenericPath { endpoint: f2->Ok_0, cluster: f3->Ok_0, leaf: widen_leaf(f4->Ok_0) },
            ),
        }
    }
}

/// The path that a list element is read as.
pub fn attr_path_from(t: &TLVElement) -> (r: Result<GenericPath, Error>)
    ensures
        r == attr_path_of_elem(t@),
{
    let children = match t.confirm_list() {
        Ok(c) => c,
        Err(x) => {
            return Err(x);
        },
    };
    proof {
        lemma_children_view(*t);
        reveal_with_fuel(first_error, 8);
    }
    let tags: Vec<u8> = vec![0, 1, 2, 3, 4, 5];
    assert(tags@ =~= attr_path_tags());
    let m = match_fields(children, tags.as_slice(), false);
    let ghost c = t@.children;
    assert(forall|i: int|
        0 <= i < 6 ==> match (#[trigger] m@[i]) {
            Some(j) => j < children@.len() && member_at(c, match_ordered(c, 0, attr_path_tags())[i])
                == Some(children@[j as int]@),
            None => member_at(c, match_ordered(c, 0, attr_path_tags())[i]) is None,
        });
    match m[0] {
        Some(j) => match children[j].bool() {
            Ok(_) => {},
            Err(x) => {
                return Err(x);
            },
        },
        None => {},
    }
    match m[1] {
        Some(j) => match children[j].u64() {
            Ok(_) => {},
            Err(x) => {
                return Err(x);
            },
        },
        None => {},
    }
    let endpoint: Option<u16> = match m[2] {
        Some(j) => match children[j].u16() {
            Ok(v) => Some(v),
            Err(x) => {
                return Err(x);
            },
        },
        None => None,
    };
    let cluster: Option<u32> = match m[3] {
        Some(j) => match children[j].u32() {
            Ok(v) => Some(v),
            Err(x) => {
                return Err(x);
            },
        },
        None => None,
    };
    let leaf: Option<u32> = match m[4] {
        Some(j) => match children[j].u16() {
            Ok(v) => Some(v as u32),
            Err(x) => {
                return Err(x);
            },
        },
        None => None,
    };
    match m[5] {
        Some(j) => match children[j].u16() {
            Ok(_) => {},
            Err(x) => {
                return Err(x);
            },
        },
        None => {},
    }
    Ok(GenericPath { endpoint, cluster, leaf })
}

/// The tags of the fields of the path of a command: endpoint, cluster,
/// command.
pub open spec fn cmd_path_tags() -> Seq<u8> {
    seq![0u8, 1u8, 2u8]
}

/// The path of a command that a list element is read as: endpoint, cluster
/// and command under the context tags 0, 1 and 2, each a wildcard where it
/// is absent.
pub open spec fn cmd_path_of_elem(e: Elem) -> Result<GenericPath, Error> {
    if e.code != TYPE_LIST {
        Err(Error::TLVTypeMismatch)
    } else {
        let c = e.children;
        let m = match_ordered(c, 0, cmd_path_tags());
        let f0 = optional(field(c, m[0], |x: Elem| elem_u16(x)));
        let f1 = optional(field(c, m[1], |x: Elem| elem_u32(x)));
        let f2 = optional(field(c, m[2], |x: Elem| elem_u32(x)));
        match first_error(seq![error_of(f0), error_of(f1), error_of(f2)]) {
            Some(x) => Err(x),
            None => Ok(GenericPath { endpoint: f0->Ok_0, cluster: f1->Ok_0, leaf: f2->Ok_0 }),
        }
    }
}

/// The path of a command that a list element is read as.
pub fn cmd_path_from(t: &TLVElement) -> (r: Result<GenericPath, Error>)
    ensures
        r == cmd_path_of_elem(t@),
{
    let children = match t.confirm_list() {
        Ok(c) => c,
        Err(x) => {
            return Err(x);
        },
    };
    proof {
        lemma_children_view(*t);
        reveal_with_fuel(first_error, 5);
    }
    let tags: Vec<u8> = vec![0, 1, 2];
    assert(tags@ =~= cmd_path_tags());
    let m = match_fields(children, tags.as_slice(), false);
    let ghost c = t@.children;
    assert(forall|i: int|
        0 <= i < 3 ==> match (#[trigger] m@[i]) {
            Some(j) => j < children@.len() && member_at(c, match_ordered(c, 0, cmd_path_tags())[i])
                == Some(children@[j as int]@),
            None => member_at(c, match_ordered(c, 0, cmd_path_tags())[i]) is None,
        });
    let endpoint: Option<u16> = match m[0] {
        Some(j) => match children[j].u16() {
            Ok(v) => Some(v),
            Err(x) => {
                return Err(x);
            },
        },
        None => None,
    };
    let cluster: Option<u32> = match m[1] {
        Some(j) => match children[j].u32() {
            Ok(v) => Some(v),
            Err(x) => {
                return Err(x);
            },
        },
        None => None,
    };
    let leaf: Option<u32> = match m[2] {
        Some(j) => match children[j].u32() {
            Ok(v) => Some(v),
            Err(x) => {
                return Err(x);
            },
        },
        None => None,
    };
    Ok(GenericPath { endpoint, cluster, leaf })
}

/// One item of a write or invoke request: a path, and the element that
/// holds the data.
pub struct PathData<'a> {
    pub path: GenericPath,
    pub data: &'a TLVElement,
}

/// What an item of a request holds.
pub struct PathDataModel {
    pub path: GenericPath,
    pub data: Elem,
}

impl<'a> View for PathData<'a> {
    type V = PathDataModel;

    open spec fn view(&self) -> PathDataModel {
        PathDataModel { path: self.path, data: self.data@ }
    }
}

/// The models of a run of items.
pub open spec fn items_view(s: Seq<PathData<'_>>) -> Seq<PathDataModel> {
    Seq::new(s.len(), |i: int| s[i]@)
}

/// The paths that the members of an array are read as, in order; the
/// first one that cannot be read gives the error.
pub open spec fn paths_of_members(s: Seq<Elem>) -> Result<Seq<GenericPath>, Error>
    decreases s.len(),
{
    if s.len() == 0 {
        Ok(Seq::empty())
    } else {
        match paths_of_members(s.drop_last()) {
            Err(e) => Err(e),
            Ok(front) => match attr_path_of_elem(s.last()) {
                Ok(p) => Ok(front.push(p)),
                Err(e) => Err(e),
            },
        }
    }
}

/// Once a member cannot be read, no longer run of members can.
pub proof fn lemma_paths_error_stays(s: Seq<Elem>, i: int)
    requires
        0 <= i <= s.len(),
        paths_of_members(s.subrange(0, i)) is Err,
    ensures
        paths_of_members(s) == paths_of_members(s.subrange(0, i)),
    decreases s.len() - i,
{
    if i < s.len() {
        assert(s.subrange(0, i + 1).drop_last() =~= s.subrange(0, i));
        lemma_paths_error_stays(s, i + 1);
    } else {
        assert(s.subrange(0, i) =~= s);
    }
}

/// The paths that an array element is read as.
pub open spec fn paths_of_elem(e: Elem) -> Result<Seq<GenericPath>, Error> {
    if e.code != TYPE_ARRAY {
        Err(Error::TLVTypeMismatch)
    } else {
        paths_of_members(e.children)
    }
}

/// The paths that an array element is read as.
pub fn paths_from(t: &TLVElement) -> (r: Result<Vec<GenericPath>, Error>)
    ensures
        match r {
            Ok(v) => paths_of_elem(t@) == Ok::<Seq<GenericPath>, Error>(v@),
            Err(x) => paths_of_elem(t@) == Err::<Seq<GenericPath>, Error>(x),
        },
{
    let children = match t.confirm_array() {
        Ok(c) => c,
        Err(x) => {
            return Err(x);
        },
    };
    let ghost kids = t@.children;
    proof {
        lemma_children_view(*t);
    }
    let mut out: Vec<GenericPath> = Vec::new();
    let mut i: usize = 0;
    assert(kids.subrange(0, 0) =~= Seq::<Elem>::empty());
    while i < children.len()
        invariant
            i <= children.len(),
            kids == elems_view(children@),
            kids == t@.children,
            t.code == TYPE_ARRAY,
            paths_of_members(kids.subrange(0, i as int)) == Ok::<Seq<GenericPath>, Error>(out@),
        decreases children.len() - i,
    {
        let ghost prefix = kids.subrange(0, i + 1);
        proof {
            assert(prefix.drop_last() =~= kids.subrange(0, i as int));
            assert(prefix.last() == children@[i as int]@);
        }
        match attr_path_from(&children[i]) {
            Ok(p) => {
                out.push(p);
            },
            Err(x) => {
                proof {
                    lemma_paths_error_stays(kids, i + 1);
                }
                return Err(x);
            },
        }
        i = i + 1;
    }
    assert(kids.subrange(0, i as int) =~= kids);
    Ok(out)
}

/// A read request: the paths to read, where there are any, and the two
/// features that are received and ignored.
#[derive(Debug)]
pub struct ReadReq {
    pub attr_requests: Option<Vec<GenericPath>>,
    pub fabric_filtered: bool,
    pub dataver_filters: bool,
}

/// What a read request holds.
pub struct ReadReqModel {
    pub attr_requests: Option<Seq<GenericPath>>,
    pub fabric_filtered: bool,
    pub dataver_filters: bool,
}

impl View for ReadReq {
    type V = ReadReqModel;

    open spec fn view(&self) -> ReadReqModel {
        ReadReqModel {
            attr_requests: match self.attr_requests {
                Some(v) => Some(v@),
                None => None,
            },
            fabric_filtered: self.fabric_filtered,
            dataver_filters: self.dataver_filters,
        }
    }
}

/// The tags of the fields of a read request: attribute requests, event
/// requests, event filters, fabric filtered, data version filters.
pub open spec fn read_req_tags() -> Seq<u8> {
    seq![0u8, 1u8, 2u8, 3u8, 4u8]
}

/// The read request that a structure element is read as. The flag for
/// fabric filtering is required; the paths are optional; data version
/// filters are noted where they are present and not read.
pub open spec fn read_req_of_elem(e: Elem) -> Result<ReadReqModel, Error> {
    if e.code != TYPE_STRUCT {
        Err(Error::TLVTypeMismatch)
    } else {
        let c = e.children;
        let m = match_ordered(c, 0, read_req_tags());
        let f0 = optional(field(c, m[0], |x: Elem| paths_of_elem(x)));
        let f3 = required(field(c, m[3], |x: Elem| elem_bool(x)));
        match first_error(seq![error_of(f0), error_of(f3)]) {
            Some(x) => Err(x),
            None => Ok(
                ReadReqModel {
                    attr_requests: f0->Ok_0,
                    fabric_filtered: f3->Ok_0,
                    dataver_filters: m[4] is Some,
                },
            ),
        }
    }
}

impl ReadReq {
    /// Reads a read request from a structure element.
    pub fn from_tlv(t: &TLVElement) -> (r: Result<ReadReq, Error>)
        ensures
            match r {
                Ok(v) => read_req_of_elem(t@) == Ok::<ReadReqModel, Error>(v@),
                Err(x) => read_req_of_elem(t@) == Err::<ReadReqModel, Error>(x),
            },
    {
        let children = match t.confirm_struct() {
            Ok(c) => c,
            Err(x) => {
                return Err(x);
            },
        };
        proof {
            lemma_children_view(*t);
            reveal_with_fuel(first_error, 4);
        }
        let tags: Vec<u8> = vec![0, 1, 2, 3, 4];
        assert(tags@ =~= read_req_tags());
        let m = match_fields(children, tags.as_slice(), false);
        let ghost c = t@.children;
        assert(forall|i: int|
            0 <= i < 5 ==> match (#[trigger] m@[i]) {
                Some(j) => j < children@.len() && member_at(
                    c,
                    match_ordered(c, 0, read_req_tags())[i],
                ) == Some(children@[j as int]@),
                None => member_at(c, match_ordered(c, 0, read_req_tags())[i]) is None,
            });
        let attr_requests: Option<Vec<GenericPath>> = match m[0] {
            Some(j) => match paths_from(&children[j]) {
                Ok(v) => Some(v),
                Err(x) => {
                    return Err(x);
                },
            },
            None => None,
        };
        let fabric_filtered: bool = match m[3] {
            Some(j) => match children[j].bool() {
                Ok(v) => v,
                Err(x) => {
                    return Err(x);
                },
            },
            None => {
                return Err(Error::NoTagFound);
            },
        };
        let dataver_filters: bool = m[4].is_some();
        Ok(ReadReq { attr_requests, fabric_filtered, dataver_filters })
    }
}

} // verus!

verus! {

/// The tags of the fields of an item: for a write, data version, path and
/// data; for a command, path and data.
pub open spec fn item_tags(write: bool) -> Seq<u8> {
    if write {
        seq![0u8, 1u8, 2u8]
    } else {
        seq![0u8, 1u8]
    }
}

/// The place of the path among the fields of an item.
pub open spec fn item_path_at(write: bool) -> int {
    if write {
        1
    } else {
        0
    }
}

/// The item that a structure element is read as: its path and the element
/// that holds its data, both required. An item of a write may have a data
/// version before them.
pub open spec fn item_of_elem(e: Elem, write: bool) -> Result<PathDataModel, Error> {
    if e.code != TYPE_STRUCT {
        Err(Error::TLVTypeMismatch)
    } else {
        let c = e.children;
        let m = match_ordered(c, 0, item_tags(write));
        let at = item_path_at(write);
        let ver = if write {
            optional(field(c, m[0], |x: Elem| elem_u32(x)))
        } else {
            Ok(None)
        };
        let path = required(
            field(
                c,
                m[at],
                |x: Elem|
                    if write {
                        attr_path_of_elem(x)
                    } else {
                        cmd_path_of_elem(x)
                    },
            ),
        );
        match first_error(seq![error_of(ver), error_of(path)]) {
            Some(x) => Err(x),
            None => match member_at(c, m[at + 1]) {
                None => Err(Error::NoTagFound),
                Some(d) => Ok(PathDataModel { path: path->Ok_0, data: d }),
            },
        }
    }
}

/// The item that a structure element is read as.
pub fn item_from<'a>(t: &'a TLVElement, write: bool) -> (r: Result<PathData<'a>, Error>)
    ensures
        match r {
            Ok(v) => item_of_elem(t@, write) == Ok::<PathDataModel, Error>(v@),
            Err(x) => item_of_elem(t@, write) == Err::<PathDataModel, Error>(x),
        },
{
    let children = match t.confirm_struct() {
        Ok(c) => c,
        Err(x) => {
            return Err(x);
        },
    };
    proof {
        lemma_children_view(*t);
        reveal_with_fuel(first_error, 4);
    }
    let tags: Vec<u8> = if write {
        vec![0, 1, 2]
    } else {
        vec![0, 1]
    };
    assert(tags@ =~= item_tags(write));
    let m = match_fields(children, tags.as_slice(), false);
    let ghost c = t@.children;
    assert(forall|i: int|
        0 <= i < tags@.len() ==> match (#[trigger] m@[i]) {
            Some(j) => j < children@.len() && member_at(
                c,
                match_ordered(c, 0, item_tags(write))[i],
            ) == Some(children@[j as int]@),
            None => member_at(c, match_ordered(c, 0, item_tags(write))[i]) is None,
        });
    let at: usize = if write {
        1
    } else {
        0
    };
    if write {
        match m[0] {
            Some(j) => match children[j].u32() {
                Ok(_) => {},
                Err(x) => {
                    return Err(x);
                },
            },
            None => {},
        }
    }
    let path: GenericPath = match m[at] {
        Some(j) => {
            let r = if write {
                attr_path_from(&children[j])
            } else {
                cmd_path_from(&children[j])
            };
            match r {
                Ok(p) => p,
                Err(x) => {
                    return Err(x);
                },
            }
        },
        None => {
            return Err(Error::NoTagFound);
        },
    };
    match m[at + 1] {
        Some(j) => Ok(PathData { path, data: &children[j] }),
        None => Err(Error::NoTagFound),
    }
}

/// The items that the members of an array are read as, in order; the first
/// one that cannot be read gives the error.
pub open spec fn items_of_members(s: Seq<Elem>, write: bool) -> Result<Seq<PathDataModel>, Error>
    decreases s.len(),
{
    if s.len() == 0 {
        Ok(Seq::empty())
    } else {
        match items_of_members(s.drop_last(), write) {
            Err(e) => Err(e),
            Ok(front) => match item_of_elem(s.last(), write) {
                Ok(p) => Ok(front.push(p)),
                Err(e) => Err(e),
            },
        }
    }
}

/// Once a member cannot be read, no longer run of members can.
pub proof fn lemma_items_error_stays(s: Seq<Elem>, write: bool, i: int)
    requires
        0 <= i <= s.len(),
        items_of_members(s.subrange(0, i), write) is Err,
    ensures
        items_of_members(s, write) == items_of_members(s.subrange(0, i), write),
    decreases s.len() - i,
{
    if i < s.len() {
        assert(s.subrange(0, i + 1).drop_last() =~= s.subrange(0, i));
        lemma_items_error_stays(s, write, i + 1);
    } else {
        assert(s.subrange(0, i) =~= s);
    }
}

/// The items that an array element is read as.
pub open spec fn items_of_elem(e: Elem, write: bool) -> Result<Seq<PathDataModel>, Error> {
    if e.code != TYPE_ARRAY {
        Err(Error::TLVTypeMismatch)
    } else {
        items_of_members(e.children, write)
    }
}

/// The items that an array element is read as.
pub fn items_from<'a>(t: &'a TLVElement, write: bool) -> (r: Result<Vec<PathData<'a>>, Error>)
    ensures
        match r {
            Ok(v) => items_of_elem(t@, write) == Ok::<Seq<PathDataModel>, Error>(items_view(v@)),
            Err(x) => items_of_elem(t@, write) == Err::<Seq<PathDataModel>, Error>(x),
        },
{
    let children = match t.confirm_array() {
        Ok(c) => c,
        Err(x) => {
            return Err(x);
        },
    };
    let ghost kids = t@.children;
    proof {
        lemma_children_view(*t);
    }
    let mut out: Vec<PathData<'a>> = Vec::new();
    let mut i: usize = 0;
    assert(kids.subrange(0, 0) =~= Seq::<Elem>::empty());
    assert(items_view(out@) =~= Seq::<PathDataModel>::empty());
    while i < children.len()
        invariant
            i <= children.len(),
            kids == elems_view(children@),
            kids == t@.children,
            t.code == TYPE_ARRAY,
            items_of_members(kids.subrange(0, i as int), write) == Ok::<
                Seq<PathDataModel>,
                Error,
            >(items_view(out@)),
        decreases children.len() - i,
    {
        let ghost prefix = kids.subrange(0, i + 1);
        let ghost before = items_view(out@);
        proof {
            assert(prefix.drop_last() =~= kids.subrange(0, i as int));
            assert(prefix.last() == children@[i as int]@);
        }
        match item_from(&children[i], write) {
            Ok(p) => {
                let ghost pv = p@;
                out.push(p);
                assert(items_view(out@) =~= before.push(pv));
            },
            Err(x) => {
                proof {
                    lemma_items_error_stays(kids, write, i + 1);
                }
                return Err(x);
            },
        }
        i = i + 1;
    }
    assert(kids.subrange(0, i as int) =~= kids);
    Ok(out)
}

/// A write request: whether the response is to be suppressed, and the
/// writes.
pub struct WriteReq<'a> {
    pub supress_response: Option<bool>,
    pub write_requests: Vec<PathData<'a>>,
}

/// What a write request holds.
pub struct WriteReqModel {
    pub supress_response: Option<bool>,
    pub write_requests: Seq<PathDataModel>,
}

impl<'a> View for WriteReq<'a> {
    type V = WriteReqModel;

    open spec fn view(&self) -> WriteReqModel {
        WriteReqModel {
            supress_response: self.supress_response,
            write_requests: items_view(self.write_requests@),
        }
    }
}

/// The tags of the fields of a write request: suppress response, timed
/// request, write requests, more chunked messages.
pub open spec fn write_req_tags() -> Seq<u8> {
    seq![0u8, 1u8, 2u8, 3u8]
}

/// The write request that a structure element is read as. The writes are
/// required.
pub open spec fn write_req_of_elem(e: Elem) -> Result<WriteReqModel, Error> {
    if e.code != TYPE_STRUCT {
        Err(Error::TLVTypeMismatch)
    } else {
        let c = e.children;
        let m = match_ordered(c, 0, write_req_tags());
        let f0 = optional(field(c, m[0], |x: Elem| elem_bool(x)));
        let f1 = optional(field(c, m[1], |x: Elem| elem_bool(x)));
        let f2 = required(field(c, m[2], |x: Elem| items_of_elem(x, true)));
        match first_error(seq![error_of(f0), error_of(f1), error_of(f2)]) {
            Some(x) => Err(x),
            None => Ok(WriteReqModel { supress_response: f0->Ok_0, write_requests: f2->Ok_0 }),
        }
    }
}

impl<'a> WriteReq<'a> {
    /// Reads a write request from a structure element.
    pub fn from_tlv(t: &'a TLVElement) -> (r: Result<WriteReq<'a>, Error>)
        ensures
            match r {
                Ok(v) => write_req_of_elem(t@) == Ok::<WriteReqModel, Error>(v@),
                Err(x) => write_req_of_elem(t@) == Err::<WriteReqModel, Error>(x),
            },
    {
        let children = match t.confirm_struct() {
            Ok(c) => c,
            Err(x) => {
                return Err(x);
            },
        };
        proof {
            lemma_children_view(*t);
            reveal_with_fuel(first_error, 5);
        }
        let tags: Vec<u8> = vec![0, 1, 2, 3];
        assert(tags@ =~= write_req_tags());
        let m = match_fields(children, tags.as_slice(), false);
        let ghost c = t@.children;
        assert(forall|i: int|
            0 <= i < 4 ==> match (#[trigger] m@[i]) {
                Some(j) => j < children@.len() && member_at(
                    c,
                    match_ordered(c, 0, write_req_tags())[i],
                ) == Some(children@[j as int]@),
                None => member_at(c, match_ordered(c, 0, write_req_tags())[i]) is None,
            });
        let supress_response: Option<bool> = match m[0] {
            Some(j) => match children[j].bool() {
                Ok(v) => Some(v),
                Err(x) => {
                    return Err(x);
                },
            },
            None => None,
        };
        match m[1] {
            Some(j) => match children[j].bool() {
                Ok(_) => {},
                Err(x) => {
                    return Err(x);
                },
            },
            None => {},
        }
        let write_requests: Vec<PathData<'a>> = match m[2] {
            Some(j) => match items_from(&children[j], true) {
                Ok(v) => v,
                Err(x) => {
                    return Err(x);
                },
            },
            None => {
                return Err(Error::NoTagFound);
            },
        };
        Ok(WriteReq { supress_response, write_requests })
    }
}

/// An invoke request: the commands, where there are any.
pub struct InvReq<'a> {
    pub inv_requests: Option<Vec<PathData<'a>>>,
}

/// What an invoke request holds.
pub struct InvReqModel {
    pub inv_requests: Option<Seq<PathDataModel>>,
}

impl<'a> View for InvReq<'a> {
    type V = InvReqModel;

    open spec fn view(&self) -> InvReqModel {
        InvReqModel {
            inv_requests: match self.inv_requests {
                Some(v) => Some(items_view(v@)),
                None => None,
            },
        }
    }
}

/// The tags of the fields of an invoke request: suppress response, timed
/// request, invoke requests.
pub open spec fn inv_req_tags() -> Seq<u8> {
    seq![0u8, 1u8, 2u8]
}

/// The invoke request that a structure element is read as.
pub open spec fn inv_req_of_elem(e: Elem) -> Result<InvReqModel, Error> {
    if e.code != TYPE_STRUCT {
        Err(Error::TLVTypeMismatch)
    } else {
        let c = e.children;
        let m = match_ordered(c, 0, inv_req_tags());
        let f0 = optional(field(c, m[0], |x: Elem| elem_bool(x)));
        let f1 = optional(field(c, m[1], |x: Elem| elem_bool(x)));
        let f2 = optional(field(c, m[2], |x: Elem| items_of_elem(x, false)));
        match first_error(seq![error_of(f0), error_of(f1), error_of(f2)]) {
            Some(x) => Err(x),
            None => Ok(InvReqModel { inv_requests: f2->Ok_0 }),
        }
    }
}

impl<'a> InvReq<'a> {
    /// Reads an invoke request from a structure element.
    pub fn from_tlv(t: &'a TLVElement) -> (r: Result<InvReq<'a>, Error>)
        ensures
            match r {
                Ok(v) => inv_req_of_elem(t@) == Ok::<InvReqModel, Error>(v@),
                Err(x) => inv_req_of_elem(t@) == Err::<InvReqModel, Error>(x),
            },
    {
        let children = match t.confirm_struct() {
            Ok(c) => c,
            Err(x) => {
                return Err(x);
            },
        };
        proof {
            lemma_children_view(*t);
            reveal_with_fuel(first_error, 5);
        }
        let tags: Vec<u8> = vec![0, 1, 2];
        assert(tags@ =~= inv_req_tags());
        let m = match_fields(children, tags.as_slice(), false);
        let ghost c = t@.children;
        assert(forall|i: int|
            0 <= i < 3 ==> match (#[trigger] m@[i]) {
                Some(j) => j < children@.len() && member_at(
                    c,
                    match_ordered(c, 0, inv_req_tags())[i],
                ) == Some(children@[j as int]@),
                None => member_at(c, match_ordered(c, 0, inv_req_tags())[i]) is None,
            });
        match m[0] {
            Some(j) => match children[j].bool() {
                Ok(_) => {},
                Err(x) => {
                    return Err(x);
                },
            },
            None => {},
        }
        match m[1] {
            Some(j) => match children[j].bool() {
                Ok(_) => {},
                Err(x) => {
                    return Err(x);
                },
            },
            None => {},
        }
        let inv_requests: Option<Vec<PathData<'a>>> = match m[2] {
            Some(j) => match items_from(&children[j], false) {
                Ok(v) => Some(v),
                Err(x) => {
                    return Err(x);
                },
            },
            None => None,
        };
        Ok(InvReq { inv_requests })
    }
}

} // verus!
