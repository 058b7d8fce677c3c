use dict_admin::envelope::Res;
use dict_admin::models::DictError;
use dict_admin::table::delete_outcome;
use dict_admin::login_log::{Column, ColumnDef, Entity, Model, PrimaryKey};
use dict_admin::page::num_pages;

#[test]
fn envelope_constructors_keep_their_content() {
    let ok: Res<u64> = Res::with_data(7);
    match ok {
        Res::Data(d) => assert_eq!(d, 7),
        _ => panic!("with_data must wrap the payload"),
    }
    let msg: Res<u64> = Res::with_msg("done");
    match msg {
        Res::Msg(m) => assert_eq!(m, "done"),
        _ => panic!("with_msg must wrap the message"),
    }
    let err: Res<u64> = Res::with_err("bad request");
    match err {
        Res::ErrMsg(m) => assert_eq!(m, "bad request"),
        _ => panic!("with_err must wrap the message"),
    }
}

#[test]
fn a_delete_that_removed_nothing_is_an_error() {
    assert_eq!(delete_outcome(0), Err(DictError::NothingDeleted));
    assert_eq!(delete_outcome(3), Ok(3));
}

#[test]
fn page_count_rounds_up() {
    assert_eq!(num_pages(0, 10), 0);
    assert_eq!(num_pages(1, 10), 1);
    assert_eq!(num_pages(10, 10), 1);
    assert_eq!(num_pages(11, 10), 2);
    assert_eq!(num_pages(99, 10), 10);
    assert_eq!(num_pages(7, 1), 7);
}

#[test]
fn login_log_columns_keep_their_declared_widths() {
    assert_eq!(Column::InfoId.def(), ColumnDef::Text(32));
    assert_eq!(Column::LoginName.def(), ColumnDef::Text(50));
    assert_eq!(Column::Net.def(), ColumnDef::Text(10));
    assert_eq!(Column::Ipaddr.def(), ColumnDef::Text(50));
    assert_eq!(Column::LoginLocation.def(), ColumnDef::Text(255));
    assert_eq!(Column::Browser.def(), ColumnDef::Text(50));
    assert_eq!(Column::Os.def(), ColumnDef::Text(50));
    assert_eq!(Column::Device.def(), ColumnDef::Text(50));
    assert_eq!(Column::Status.def(), ColumnDef::Ch(1));
    assert_eq!(Column::Msg.def(), ColumnDef::Text(255));
    assert_eq!(Column::LoginTime.def(), ColumnDef::DateTime);
    assert_eq!(Column::Module.def(), ColumnDef::Text(30));
}

#[test]
fn login_log_table_name_and_key() {
    assert_eq!(Entity.table_name(), "sys_login_log");
    assert!(!PrimaryKey::auto_increment());
}

fn sample_row() -> Model {
    Model {
        info_id: "0".repeat(32),
        login_name: "admin".to_string(),
        net: "wifi".to_string(),
        ipaddr: "127.0.0.1".to_string(),
        login_location: "local".to_string(),
        browser: "firefox".to_string(),
        os: "linux".to_string(),
        device: "desktop".to_string(),
        status: "1".to_string(),
        msg: "login ok".to_string(),
        login_time: 1704067200,
        module: "system".to_string(),
    }
}

#[test]
fn row_within_widths_fits() {
    assert!(sample_row().fits_columns());
}

#[test]
fn overlong_key_does_not_fit() {
    let mut m = sample_row();
    m.info_id = "0".repeat(33);
    assert!(!m.fits_columns());
}

#[test]
fn status_must_be_a_single_character() {
    let mut m = sample_row();
    m.status = "10".to_string();
    assert!(!m.fits_columns());
    m.status = String::new();
    assert!(!m.fits_columns());
}
