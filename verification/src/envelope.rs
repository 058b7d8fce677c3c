//! The uniform response envelope and the shape of a paginated listing.

use vstd::prelude::*;

verus! {

/// One page of a listing, together with the pagination summary the caller
/// is owed: the total row count over every page, the page count, and the
/// page number that was served.
pub struct ListData<T> {
    pub list: Vec<T>,
    pub total: u64,
    pub total_pages: u64,
    pub page_num: u64,
}

/// Uniform response envelope: a payload, a plain success message, or an
/// error message.
pub enum Res<T> {
    Data(T),
    Msg(String),
    ErrMsg(String),
}

impl<T> Res<T> {
    /// Wrap a successful payload.
    pub fn with_data(data: T) -> (r: Self)
        ensures
            r matches Res::Data(d) && d == data,
    {
        Res::Data(data)
    }

    /// Wrap a success message.
    pub fn with_msg(msg: &str) -> (r: Self)
        ensures
            r matches Res::Msg(m) && m@ == msg@,
    {
        Res::Msg(String::from_str(msg))
    }

    /// Wrap an error message.
    pub fn with_err(err: &str) -> (r: Self)
        ensures
            r matches Res::ErrMsg(m) && m@ == err@,
    {
        Res::ErrMsg(String::from_str(err))
    }
}

} // verus!
