use dict_admin::models::{AddReq, DeleteReq, DictError, EditReq, PageParams, SearchReq};
use dict_admin::table::DictTypeTable;

fn add_req(name: &str, ty: &str, status: Option<u8>, remark: Option<&str>) -> AddReq {
    AddReq {
        dict_name: name.to_string(),
        dict_type: ty.to_string(),
        status,
        remark: remark.map(|s| s.to_string()),
    }
}

fn empty_search() -> SearchReq {
    SearchReq {
        dict_type_id: None,
        dict_name: None,
        dict_type: None,
        status: None,
        begin_time: None,
        end_time: None,
    }
}

fn page(num: u64, size: u64) -> PageParams {
    PageParams { page_num: Some(num), page_size: Some(size) }
}

// 2024-01-01 and 2024-01-31 as Unix timestamps.
const JAN_1: i64 = 1704067200;
const JAN_31: i64 = 1706659200;

fn sample_table() -> DictTypeTable {
    let mut t = DictTypeTable::new();
    // Eight active rows created inside January, out of key order.
    for (i, key) in ["d05", "d01", "d03", "d02", "d08", "d06", "d07", "d04"].iter().enumerate() {
        t.add_with(
            add_req(&format!("name {key}"), &format!("type {key}"), Some(1), None),
            key.to_string(),
            JAN_1 + (i as i64) * 86400,
        )
        .unwrap();
    }
    // Two inactive rows inside January.
    t.add_with(add_req("inactive a", "type x1", Some(2), None), "x01".to_string(), JAN_1 + 100)
        .unwrap();
    t.add_with(add_req("inactive b", "type x2", Some(2), None), "x02".to_string(), JAN_1 + 200)
        .unwrap();
    // Two active rows outside January.
    t.add_with(add_req("early", "type e", Some(1), None), "e01".to_string(), JAN_1 - 5)
        .unwrap();
    t.add_with(add_req("late", "type l", Some(1), None), "l01".to_string(), JAN_31 + 5)
        .unwrap();
    t
}

#[test]
fn filtered_first_page_matches_example() {
    // Filter {status: 1, begin_time: 2024-01-01, end_time: 2024-01-31},
    // page 1 of size 10: at most ten rows, all active and created in range,
    // with the exact total and page count.
    let t = sample_table();
    let req = SearchReq {
        status: Some(1),
        begin_time: Some(JAN_1),
        end_time: Some(JAN_31),
        ..empty_search()
    };
    let data = t.get_sort_list(&page(1, 10), &req);
    assert!(data.list.len() <= 10);
    assert_eq!(data.total, 8);
    assert_eq!(data.total_pages, 1);
    assert_eq!(data.page_num, 1);
    assert_eq!(data.list.len(), 8);
    for m in &data.list {
        assert_eq!(m.status, 1);
        let created = m.created_at.unwrap();
        assert!(created >= JAN_1 && created <= JAN_31);
    }
}

#[test]
fn total_is_independent_of_page() {
    let t = sample_table();
    let req = SearchReq { status: Some(1), ..empty_search() };
    let p1 = t.get_sort_list(&page(1, 3), &req);
    let p2 = t.get_sort_list(&page(2, 3), &req);
    let p9 = t.get_sort_list(&page(9, 3), &req);
    assert_eq!(p1.total, 10);
    assert_eq!(p2.total, 10);
    assert_eq!(p9.total, 10);
    assert_eq!(p1.total_pages, 4);
}

#[test]
fn pages_concatenate_to_the_full_result_set() {
    let t = sample_table();
    let req = empty_search();
    let all = t.get_sort_list(&page(1, 100), &req);
    assert_eq!(all.total, 12);
    assert_eq!(all.list.len(), 12);
    let mut seen: Vec<String> = Vec::new();
    let mut num = 1;
    loop {
        let p = t.get_sort_list(&page(num, 5), &req);
        if p.list.is_empty() {
            break;
        }
        for m in &p.list {
            seen.push(m.dict_type_id.clone());
        }
        num += 1;
    }
    let expected: Vec<String> = all.list.iter().map(|m| m.dict_type_id.clone()).collect();
    assert_eq!(seen, expected);
}

#[test]
fn page_past_the_end_is_empty() {
    let t = sample_table();
    let p = t.get_sort_list(&page(100, 10), &empty_search());
    assert!(p.list.is_empty());
    assert_eq!(p.total, 12);
    assert_eq!(p.page_num, 100);
}

#[test]
fn listing_is_sorted_by_primary_key() {
    let t = sample_table();
    let p = t.get_sort_list(&page(1, 100), &empty_search());
    let keys: Vec<&str> = p.list.iter().map(|m| m.dict_type_id.as_str()).collect();
    let mut sorted = keys.clone();
    sorted.sort();
    assert_eq!(keys, sorted);
    assert_eq!(keys[0], "d01");
    assert_eq!(keys[11], "x02");
}

#[test]
fn second_add_with_same_natural_key_is_rejected() {
    let mut t = DictTypeTable::new();
    let first = t.add_with(add_req("gender", "sys_gender", None, None), "k01".to_string(), JAN_1);
    assert_eq!(first.unwrap(), "k01");
    let second =
        t.add_with(add_req("gender 2", "sys_gender", None, None), "k02".to_string(), JAN_1);
    assert_eq!(second.unwrap_err(), DictError::DuplicateDictType);
    assert_eq!(t.row_count(), 1);
}

#[test]
fn add_applies_defaults() {
    let mut t = DictTypeTable::new();
    t.add_with(add_req("gender", "sys_gender", None, None), "k01".to_string(), JAN_1).unwrap();
    let req = SearchReq { dict_type_id: Some("k01".to_string()), ..empty_search() };
    let resp = t.get_by_id(&req).unwrap();
    assert_eq!(resp.status, 1);
    assert_eq!(resp.remark, "");
    assert_eq!(resp.dict_name, "gender");
    assert_eq!(resp.dict_type, "sys_gender");
}

#[test]
fn add_generates_a_25_digit_key() {
    let mut t = DictTypeTable::new();
    let id = t.add(add_req("gender", "sys_gender", Some(1), Some("remark"))).unwrap();
    assert_eq!(id.chars().count(), 25);
    assert!(id.chars().all(|c| c.is_ascii_digit() || c.is_ascii_lowercase()));
    // The row is stored under the generated key.
    let req = SearchReq { dict_type_id: Some(id.clone()), ..empty_search() };
    let resp = t.get_by_id(&req).unwrap();
    assert_eq!(resp.dict_type_id, id);
    assert_eq!(resp.remark, "remark");
    // A second creation with the same natural key is rejected.
    let second = t.add(add_req("gender 2", "sys_gender", None, None));
    assert_eq!(second.unwrap_err(), DictError::DuplicateDictType);
}

#[test]
fn deleting_only_missing_keys_is_an_error() {
    let mut t = sample_table();
    let req = DeleteReq { dict_type_ids: vec!["nope1".to_string(), "nope2".to_string()] };
    assert_eq!(t.ddelete(&req).unwrap_err(), DictError::NothingDeleted);
    assert_eq!(t.row_count(), 12);
}

#[test]
fn deleting_counts_only_the_keys_that_existed() {
    let mut t = sample_table();
    let req = DeleteReq {
        dict_type_ids: vec!["d03".to_string(), "nope".to_string(), "x01".to_string()],
    };
    assert_eq!(t.ddelete(&req).unwrap(), 2);
    assert_eq!(t.row_count(), 10);
    let gone = SearchReq { dict_type_id: Some("d03".to_string()), ..empty_search() };
    assert_eq!(t.get_by_id(&gone).unwrap_err(), DictError::NotFound);
}

#[test]
fn edit_overlays_the_stored_row() {
    let mut t = sample_table();
    let req = EditReq {
        dict_type_id: "d03".to_string(),
        dict_name: "renamed".to_string(),
        dict_type: "type d03 v2".to_string(),
        status: 2,
        remark: "edited".to_string(),
    };
    assert_eq!(t.edit_with(req, JAN_31).unwrap(), "d03");
    assert_eq!(t.row_count(), 12);
    let lookup = SearchReq { dict_type_id: Some("d03".to_string()), ..empty_search() };
    let resp = t.get_by_id(&lookup).unwrap();
    assert_eq!(resp.dict_name, "renamed");
    assert_eq!(resp.dict_type, "type d03 v2");
    assert_eq!(resp.status, 2);
    assert_eq!(resp.remark, "edited");
}

#[test]
fn edit_of_a_missing_row_is_not_found() {
    let mut t = sample_table();
    let req = EditReq {
        dict_type_id: "missing".to_string(),
        dict_name: "x".to_string(),
        dict_type: "y".to_string(),
        status: 1,
        remark: String::new(),
    };
    assert_eq!(t.edit(req).unwrap_err(), DictError::NotFound);
    assert_eq!(t.row_count(), 12);
}

#[test]
fn get_by_id_without_a_key_is_a_parameter_error() {
    let t = sample_table();
    assert_eq!(t.get_by_id(&empty_search()).unwrap_err(), DictError::MissingId);
}

#[test]
fn get_by_id_of_a_missing_key_is_not_found_never_empty() {
    let t = sample_table();
    let req = SearchReq { dict_type_id: Some("missing".to_string()), ..empty_search() };
    // The endpoint never answers with an empty payload: either a row or an error.
    match t.get_by_id(&req) {
        Ok(_) => panic!("a missing key must not return a payload"),
        Err(e) => assert_eq!(e, DictError::NotFound),
    }
}

#[test]
fn get_all_returns_active_rows_in_key_order() {
    let mut t = DictTypeTable::new();
    t.add_with(add_req("b", "tb", Some(1), None), "b".to_string(), JAN_1).unwrap();
    t.add_with(add_req("a", "ta", Some(1), None), "a".to_string(), JAN_1).unwrap();
    t.add_with(add_req("c", "tc", Some(2), None), "c".to_string(), JAN_1).unwrap();
    t.add_with(add_req("d", "td", Some(1), None), "d".to_string(), JAN_1).unwrap();
    let all = t.get_all();
    let keys: Vec<&str> = all.iter().map(|r| r.dict_type_id.as_str()).collect();
    assert_eq!(keys, vec!["a", "b", "d"]);
}

#[test]
fn check_dict_type_is_exist_reports_the_natural_key() {
    let mut t = DictTypeTable::new();
    t.add_with(add_req("gender", "sys_gender", None, None), "k01".to_string(), JAN_1).unwrap();
    assert!(t.check_dict_type_is_exist("sys_gender"));
    assert!(!t.check_dict_type_is_exist("sys_other"));
}

#[test]
fn filters_combine_on_every_present_field() {
    let t = sample_table();
    let req = SearchReq {
        dict_name: Some("name d03".to_string()),
        dict_type: Some("type d03".to_string()),
        status: Some(1),
        ..empty_search()
    };
    let data = t.get_sort_list(&page(1, 10), &req);
    assert_eq!(data.total, 1);
    assert_eq!(data.list[0].dict_type_id, "d03");
    let none = SearchReq {
        dict_name: Some("name d03".to_string()),
        dict_type: Some("type d04".to_string()),
        ..empty_search()
    };
    assert_eq!(t.get_sort_list(&page(1, 10), &none).total, 0);
}
