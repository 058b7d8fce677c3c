//! Row, request and response types of the dictionary-type service, each with
//! a mathematical view over character sequences and plain integers.

use vstd::prelude::*;

verus! {

/// A row of the dictionary-type table. Timestamps are seconds since the Unix
/// epoch; a nullable column is an `Option`.
pub struct DictTypeModel {
    pub dict_type_id: String,
    pub dict_name: String,
    pub dict_type: String,
    pub status: u8,
    pub remark: String,
    pub created_at: Option<i64>,
    pub updated_at: Option<i64>,
    pub deleted_at: Option<i64>,
}

/// Mathematical image of a row: each text column as a character sequence.
pub struct ModelV {
    pub dict_type_id: Seq<char>,
    pub dict_name: Seq<char>,
    pub dict_type: Seq<char>,
    pub status: u8,
    pub remark: Seq<char>,
    pub created_at: Option<i64>,
    pub updated_at: Option<i64>,
    pub deleted_at: Option<i64>,
}

impl View for DictTypeModel {
    type V = ModelV;

    open spec fn view(&self) -> ModelV {
        ModelV {
            dict_type_id: self.dict_type_id@,
            dict_name: self.dict_name@,
            dict_type: self.dict_type@,
            status: self.status,
            remark: self.remark@,
            created_at: self.created_at,
            updated_at: self.updated_at,
            deleted_at: self.deleted_at,
        }
    }
}

impl Clone for DictTypeModel {
    fn clone(&self) -> (r: Self)
        ensures
            r@ == self@,
    {
        DictTypeModel {
            dict_type_id: self.dict_type_id.clone(),
            dict_name: self.dict_name.clone(),
            dict_type: self.dict_type.clone(),
            status: self.status,
            remark: self.remark.clone(),
            created_at: self.created_at,
            updated_at: self.updated_at,
            deleted_at: self.deleted_at,
        }
    }
}

/// Pagination parameters of a list request; absent fields take the defaults
/// (page 1, ten rows per page).
pub struct PageParams {
    pub page_num: Option<u64>,
    pub page_size: Option<u64>,
}

/// The page number actually used: the requested one, or 1.
pub open spec fn spec_page_num(p: PageParams) -> u64 {
    match p.page_num {
        Some(n) => n,
        None => 1,
    }
}

/// The page size actually used: the requested one, or 10.
pub open spec fn spec_page_size(p: PageParams) -> u64 {
    match p.page_size {
        Some(s) => s,
        None => 10,
    }
}

/// Search filter of the list and lookup endpoints; an absent field means
/// "no constraint".
pub struct SearchReq {
    pub dict_type_id: Option<String>,
    pub dict_name: Option<String>,
    pub dict_type: Option<String>,
    pub status: Option<u8>,
    pub begin_time: Option<i64>,
    pub end_time: Option<i64>,
}

/// Mathematical image of a search filter.
pub struct SearchReqV {
    pub dict_type_id: Option<Seq<char>>,
    pub dict_name: Option<Seq<char>>,
    pub dict_type: Option<Seq<char>>,
    pub status: Option<u8>,
    pub begin_time: Option<i64>,
    pub end_time: Option<i64>,
}

impl View for SearchReq {
    type V = SearchReqV;

    open spec fn view(&self) -> SearchReqV {
        SearchReqV {
            dict_type_id: match self.dict_type_id {
                Some(ref s) => Some(s@),
                None => None,
            },
            dict_name: match self.dict_name {
                Some(ref s) => Some(s@),
                None => None,
            },
            dict_type: match self.dict_type {
                Some(ref s) => Some(s@),
                None => None,
            },
            status: self.status,
            begin_time: self.begin_time,
            end_time: self.end_time,
        }
    }
}

/// Creation payload; `status` defaults to 1 (active) and `remark` to the
/// empty string.
pub struct AddReq {
    pub dict_name: String,
    pub dict_type: String,
    pub status: Option<u8>,
    pub remark: Option<String>,
}

/// Mathematical image of a creation payload.
pub struct AddReqV {
    pub dict_name: Seq<char>,
    pub dict_type: Seq<char>,
    pub status: Option<u8>,
    pub remark: Option<Seq<char>>,
}

impl View for AddReq {
    type V = AddReqV;

    open spec fn view(&self) -> AddReqV {
        AddReqV {
            dict_name: self.dict_name@,
            dict_type: self.dict_type@,
            status: self.status,
            remark: match self.remark {
                Some(ref s) => Some(s@),
                None => None,
            },
        }
    }
}

/// Full-field update payload, applied over the stored row.
pub struct EditReq {
    pub dict_type_id: String,
    pub dict_name: String,
    pub dict_type: String,
    pub status: u8,
    pub remark: String,
}

/// Mathematical image of an update payload.
pub struct EditReqV {
    pub dict_type_id: Seq<char>,
    pub dict_name: Seq<char>,
    pub dict_type: Seq<char>,
    pub status: u8,
    pub remark: Seq<char>,
}

impl View for EditReq {
    type V = EditReqV;

    open spec fn view(&self) -> EditReqV {
        EditReqV {
            dict_type_id: self.dict_type_id@,
            dict_name: self.dict_name@,
            dict_type: self.dict_type@,
            status: self.status,
            remark: self.remark@,
        }
    }
}

/// Bulk-delete payload: the primary keys of the rows to remove.
pub struct DeleteReq {
    pub dict_type_ids: Vec<String>,
}

impl View for DeleteReq {
    type V = Seq<Seq<char>>;

    open spec fn view(&self) -> Seq<Seq<char>> {
        strings_view(self.dict_type_ids@)
    }
}

/// Response shape of the lookup endpoints: the subset of columns handed out.
#[derive(Debug)]
pub struct Resp {
    pub dict_type_id: String,
    pub dict_name: String,
    pub dict_type: String,
    pub status: u8,
    pub remark: String,
}

/// Mathematical image of a lookup response.
pub struct RespV {
    pub dict_type_id: Seq<char>,
    pub dict_name: Seq<char>,
    pub dict_type: Seq<char>,
    pub status: u8,
    pub remark: Seq<char>,
}

impl View for Resp {
    type V = RespV;

    open spec fn view(&self) -> RespV {
        RespV {
            dict_type_id: self.dict_type_id@,
            dict_name: self.dict_name@,
            dict_type: self.dict_type@,
            status: self.status,
            remark: self.remark@,
        }
    }
}

/// The views of a sequence of strings.
pub open spec fn strings_view(v: Seq<String>) -> Seq<Seq<char>> {
    v.map_values(|s: String| s@)
}

/// The views of a sequence of lookup responses.
pub open spec fn resps_view(v: Seq<Resp>) -> Seq<RespV> {
    v.map_values(|r: Resp| r@)
}

/// The response a lookup owes for a stored row.
pub open spec fn spec_resp_of(m: ModelV) -> RespV {
    RespV {
        dict_type_id: m.dict_type_id,
        dict_name: m.dict_name,
        dict_type: m.dict_type,
        status: m.status,
        remark: m.remark,
    }
}

/// Business-rule failures of the service. The caller renders each as a
/// client error with its own message.
#[derive(Clone, Copy, PartialEq, Eq, Structural, Debug)]
pub enum DictError {
    /// A row with the same dictionary type (the natural key) already exists.
    DuplicateDictType,
    /// No row carries the requested primary key.
    NotFound,
    /// A bulk delete matched no row at all.
    NothingDeleted,
    /// A lookup was asked without a primary key.
    MissingId,
}

} // verus!
