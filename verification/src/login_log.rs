//! The login-log table: its row type, column definitions and fixed column
//! widths. The widths are part of the storage contract, so a row's
//! well-formedness is stated against the column definitions.

use vstd::prelude::*;

verus! {

/// The login-log table's entity marker.
pub struct Entity;

impl Entity {
    /// The table's name in the store.
    pub fn table_name(&self) -> (r: &'static str)
        ensures
            r@ == "sys_login_log"@,
    {
        "sys_login_log"
    }
}

/// A row of the login-log table. `login_time` is seconds since the Unix
/// epoch.
pub struct Model {
    pub info_id: String,
    pub login_name: String,
    pub net: String,
    pub ipaddr: String,
    pub login_location: String,
    pub browser: String,
    pub os: String,
    pub device: String,
    pub status: String,
    pub msg: String,
    pub login_time: i64,
    pub module: String,
}

/// The columns of the login-log table.
#[derive(Clone, Copy, PartialEq, Eq, Structural, Debug)]
pub enum Column {
    InfoId,
    LoginName,
    Net,
    Ipaddr,
    LoginLocation,
    Browser,
    Os,
    Device,
    Status,
    Msg,
    LoginTime,
    Module,
}

/// A column's storage shape: text of a bounded width, a fixed-width
/// character column, or a datetime.
#[derive(Clone, Copy, PartialEq, Eq, Structural, Debug)]
pub enum ColumnDef {
    Text(u32),
    Ch(u32),
    DateTime,
}

/// The definition each column is owed.
pub open spec fn spec_def(c: Column) -> ColumnDef {
    match c {
        Column::InfoId => ColumnDef::Text(32),
        Column::LoginName => ColumnDef::Text(50),
        Column::Net => ColumnDef::Text(10),
        Column::Ipaddr => ColumnDef::Text(50),
        Column::LoginLocation => ColumnDef::Text(255),
        Column::Browser => ColumnDef::Text(50),
        Column::Os => ColumnDef::Text(50),
        Column::Device => ColumnDef::Text(50),
        Column::Status => ColumnDef::Ch(1),
        Column::Msg => ColumnDef::Text(255),
        Column::LoginTime => ColumnDef::DateTime,
        Column::Module => ColumnDef::Text(30),
    }
}

impl Column {
    /// This column's definition.
    pub fn def(&self) -> (r: ColumnDef)
        ensures
            r == spec_def(*self),
    {
        match self {
            Column::InfoId => ColumnDef::Text(32),
            Column::LoginName => ColumnDef::Text(50),
            Column::Net => ColumnDef::Text(10),
            Column::Ipaddr => ColumnDef::Text(50),
            Column::LoginLocation => ColumnDef::Text(255),
            Column::Browser => ColumnDef::Text(50),
            Column::Os => ColumnDef::Text(50),
            Column::Device => ColumnDef::Text(50),
            Column::Status => ColumnDef::Ch(1),
            Column::Msg => ColumnDef::Text(255),
            Column::LoginTime => ColumnDef::DateTime,
            Column::Module => ColumnDef::Text(30),
        }
    }
}

/// The primary key of the login-log table.
#[derive(Clone, Copy, PartialEq, Eq, Structural, Debug)]
pub enum PrimaryKey {
    InfoId,
}

impl PrimaryKey {
    /// The key is server-generated, never auto-incremented by the store.
    pub fn auto_increment() -> (r: bool)
        ensures
            r == false,
    {
        false
    }
}

/// Whether a text value fits a column definition: within the width for a
/// text column, exactly the width for a character column.
pub open spec fn col_value_fits(v: Seq<char>, d: ColumnDef) -> bool {
    match d {
        ColumnDef::Text(w) => v.len() <= w,
        ColumnDef::Ch(w) => v.len() == w,
        ColumnDef::DateTime => true,
    }
}

/// Whether a text value fits a column definition, by measuring it.
fn str_fits(s: &str, d: ColumnDef) -> (r: bool)
    ensures
        r == col_value_fits(s@, d),
{
    match d {
        ColumnDef::Text(w) => s.unicode_len() <= w as usize,
        ColumnDef::Ch(w) => s.unicode_len() == w as usize,
        ColumnDef::DateTime => true,
    }
}

impl Model {
    /// A well-formed row: every text column fits its declared width.
    pub open spec fn wf(&self) -> bool {
        &&& col_value_fits(self.info_id@, spec_def(Column::InfoId))
        &&& col_value_fits(self.login_name@, spec_def(Column::LoginName))
        &&& col_value_fits(self.net@, spec_def(Column::Net))
        &&& col_value_fits(self.ipaddr@, spec_def(Column::Ipaddr))
        &&& col_value_fits(self.login_location@, spec_def(Column::LoginLocation))
        &&& col_value_fits(self.browser@, spec_def(Column::Browser))
        &&& col_value_fits(self.os@, spec_def(Column::Os))
        &&& col_value_fits(self.device@, spec_def(Column::Device))
        &&& col_value_fits(self.status@, spec_def(Column::Status))
        &&& col_value_fits(self.msg@, spec_def(Column::Msg))
        &&& col_value_fits(self.module@, spec_def(Column::Module))
    }

    /// Whether the row fits the declared column widths.
    pub fn fits_columns(&self) -> (r: bool)
        ensures
            r == self.wf(),
    {
        str_fits(self.info_id.as_str(), Column::InfoId.def())
            && str_fits(self.login_name.as_str(), Column::LoginName.def())
            && str_fits(self.net.as_str(), Column::Net.def())
            && str_fits(self.ipaddr.as_str(), Column::Ipaddr.def())
            && str_fits(self.login_location.as_str(), Column::LoginLocation.def())
            && str_fits(self.browser.as_str(), Column::Browser.def())
            && str_fits(self.os.as_str(), Column::Os.def())
            && str_fits(self.device.as_str(), Column::Device.def())
            && str_fits(self.status.as_str(), Column::Status.def())
            && str_fits(self.msg.as_str(), Column::Msg.def())
            && str_fits(self.module.as_str(), Column::Module.def())
    }
}

} // verus!
