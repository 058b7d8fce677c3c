//! The dictionary-type table and its service operations: paginated search,
//! create with a natural-key check, read-modify-write update, bulk delete,
//! and lookups. The table is modelled as a sequence of row views kept
//! strictly sorted by primary key, which is also how every result set is
//! ordered.

use vstd::prelude::*;

use crate::envelope::ListData;
use crate::gen::{generate_id, now_timestamp};
use crate::models::{
    AddReq, AddReqV, DeleteReq, DictError, DictTypeModel, EditReq, EditReqV, ModelV, PageParams,
    Resp, RespV, SearchReq, SearchReqV, resps_view, spec_page_num, spec_page_size, spec_resp_of,
    strings_view,
};
use crate::page::{
    clipped, lemma_page_in_range, lemma_page_out_of_range, lemma_pages_cover, num_pages,
    spec_num_pages, spec_page, spec_pages_concat,
};
use crate::order::{
    KeyCmp, compare_keys, lemma_str_lt_asym, lemma_str_lt_trans, str_lt,
};

verus! {

/// The views of a sequence of rows.
pub open spec fn views_of(rows: Seq<DictTypeModel>) -> Seq<ModelV> {
    rows.map_values(|m: DictTypeModel| m@)
}

/// The rows are strictly ascending by primary key; in particular every
/// primary key is unique.
pub open spec fn sorted_by_id(rows: Seq<ModelV>) -> bool {
    forall|i: int, j: int|
        0 <= i < j < rows.len() ==> str_lt(rows[i].dict_type_id, rows[j].dict_type_id)
}

/// Some row carries this primary key.
pub open spec fn id_exists(rows: Seq<ModelV>, id: Seq<char>) -> bool {
    exists|i: int| 0 <= i < rows.len() && rows[i].dict_type_id == id
}

/// Some row carries this dictionary type (the natural key).
pub open spec fn type_exists(rows: Seq<ModelV>, dict_type: Seq<char>) -> bool {
    exists|i: int| 0 <= i < rows.len() && rows[i].dict_type == dict_type
}

/// Whether a row satisfies a search filter: equality on each present
/// categorical field, and an inclusive range on the creation time. A row
/// without a creation time fails any time bound, as a null column fails a
/// comparison in the underlying store. The filter's primary-key field
/// belongs to the lookup endpoint; the listing does not constrain it.
pub open spec fn spec_matches(f: SearchReqV, m: ModelV) -> bool {
    &&& match f.dict_name {
        Some(x) => m.dict_name == x,
        None => true,
    }
    &&& match f.dict_type {
        Some(x) => m.dict_type == x,
        None => true,
    }
    &&& match f.status {
        Some(x) => m.status == x,
        None => true,
    }
    &&& match f.begin_time {
        Some(b) => match m.created_at {
            Some(t) => t >= b,
            None => false,
        },
        None => true,
    }
    &&& match f.end_time {
        Some(e) => match m.created_at {
            Some(t) => t <= e,
            None => false,
        },
        None => true,
    }
}

/// The filter's row predicate, as a function value.
pub open spec fn match_pred(f: SearchReqV) -> spec_fn(ModelV) -> bool {
    |m: ModelV| spec_matches(f, m)
}

/// The rows satisfying a filter, in table order.
pub open spec fn spec_filtered(rows: Seq<ModelV>, f: SearchReqV) -> Seq<ModelV> {
    rows.filter(match_pred(f))
}

/// The row a creation payload becomes: the generated key, the given fields,
/// the defaults (status 1, empty remark), and the creation time.
pub open spec fn spec_new_row(req: AddReqV, id: Seq<char>, now: i64) -> ModelV {
    ModelV {
        dict_type_id: id,
        dict_name: req.dict_name,
        dict_type: req.dict_type,
        status: match req.status {
            Some(s) => s,
            None => 1,
        },
        remark: match req.remark {
            Some(r) => r,
            None => Seq::empty(),
        },
        created_at: Some(now),
        updated_at: None,
        deleted_at: None,
    }
}

/// Where a new key lands in the sorted table: the index of the first row
/// whose key is greater.
pub open spec fn spec_insert_pos(rows: Seq<ModelV>, id: Seq<char>) -> int
    decreases rows.len(),
{
    if rows.len() == 0 {
        0
    } else if str_lt(id, rows[0].dict_type_id) {
        0
    } else {
        1 + spec_insert_pos(rows.skip(1), id)
    }
}

/// The index of the first row carrying this primary key.
pub open spec fn spec_idx_of(rows: Seq<ModelV>, id: Seq<char>) -> int
    decreases rows.len(),
{
    if rows.len() == 0 {
        0
    } else if rows[0].dict_type_id == id {
        0
    } else {
        1 + spec_idx_of(rows.skip(1), id)
    }
}

/// The row an update payload leaves behind: the payload's fields over the
/// stored row, with the stored key, creation time and deletion mark kept
/// and the update time set.
pub open spec fn spec_merged(m: ModelV, req: EditReqV, now: i64) -> ModelV {
    ModelV {
        dict_type_id: m.dict_type_id,
        dict_name: req.dict_name,
        dict_type: req.dict_type,
        status: req.status,
        remark: req.remark,
        created_at: m.created_at,
        updated_at: Some(now),
        deleted_at: m.deleted_at,
    }
}

/// Whether a key is among the listed ones.
pub open spec fn spec_in_ids(id: Seq<char>, ids: Seq<Seq<char>>) -> bool {
    exists|i: int| 0 <= i < ids.len() && ids[i] == id
}

/// The survival predicate of a bulk delete, as a function value.
pub open spec fn retained_pred(ids: Seq<Seq<char>>) -> spec_fn(ModelV) -> bool {
    |m: ModelV| !spec_in_ids(m.dict_type_id, ids)
}

/// The rows that survive a bulk delete: those whose key is not listed.
pub open spec fn spec_retained(rows: Seq<ModelV>, ids: Seq<Seq<char>>) -> Seq<ModelV> {
    rows.filter(retained_pred(ids))
}

/// A row the lookup endpoints hand out: not marked deleted.
pub open spec fn spec_visible(m: ModelV) -> bool {
    m.deleted_at is None
}

/// Some row carries this primary key and is not marked deleted.
pub open spec fn visible_id_exists(rows: Seq<ModelV>, id: Seq<char>) -> bool {
    exists|i: int| 0 <= i < rows.len() && rows[i].dict_type_id == id && spec_visible(rows[i])
}

/// The predicate of the get-all endpoint, as a function value: not marked
/// deleted, and active.
pub open spec fn active_pred() -> spec_fn(ModelV) -> bool {
    |m: ModelV| spec_visible(m) && m.status == 1
}

/// What the get-all endpoint owes: every visible, active row, mapped to the
/// response shape, in table order.
pub open spec fn spec_all_active(rows: Seq<ModelV>) -> Seq<RespV> {
    rows.filter(active_pred()).map_values(|m: ModelV| spec_resp_of(m))
}

/// The dictionary-type table.
pub struct DictTypeTable {
    rows: Vec<DictTypeModel>,
}

impl View for DictTypeTable {
    type V = Seq<ModelV>;

    closed spec fn view(&self) -> Seq<ModelV> {
        views_of(self.rows@)
    }
}

proof fn lemma_views_insert(rows: Seq<DictTypeModel>, k: int, m: DictTypeModel)
    requires
        0 <= k <= rows.len(),
    ensures
        views_of(rows.insert(k, m)) == views_of(rows).insert(k, m@),
{
    assert(views_of(rows.insert(k, m)) =~= views_of(rows).insert(k, m@));
}

impl DictTypeTable {
    /// The table's invariant: rows strictly ascending by primary key.
    pub open spec fn wf(&self) -> bool {
        sorted_by_id(self@)
    }

    /// An empty table.
    pub fn new() -> (t: Self)
        ensures
            t@ == Seq::<ModelV>::empty(),
            t.wf(),
    {
        let t = DictTypeTable { rows: Vec::new() };
        proof {
            assert(t@ =~= Seq::<ModelV>::empty());
        }
        t
    }

    /// How many rows the table holds.
    pub fn row_count(&self) -> (n: usize)
        ensures
            n == self@.len(),
    {
        self.rows.len()
    }

    /// Whether a row with this dictionary type (the natural key) exists.
    #[verifier::loop_isolation(false)]
    pub fn check_dict_type_is_exist(&self, dict_type: &str) -> (r: bool)
        ensures
            r == type_exists(self@, dict_type@),
    {
        let mut i: usize = 0;
        while i < self.rows.len()
            invariant
                i <= self.rows@.len(),
                forall|j: int| 0 <= j < i ==> views_of(self.rows@)[j].dict_type != dict_type@,
            decreases self.rows@.len() - i,
        {
            match compare_keys(dict_type, self.rows[i].dict_type.as_str()) {
                KeyCmp::Equal => {
                    proof {
                        assert(views_of(self.rows@)[i as int].dict_type == dict_type@);
                    }
                    return true;
                },
                _ => {},
            }
            i += 1;
        }
        false
    }

    /// Whether a row with this primary key exists.
    #[verifier::loop_isolation(false)]
    fn contains_id(&self, id: &String) -> (r: bool)
        ensures
            r == id_exists(self@, id@),
    {
        let mut i: usize = 0;
        while i < self.rows.len()
            invariant
                i <= self.rows@.len(),
                forall|j: int| 0 <= j < i ==> views_of(self.rows@)[j].dict_type_id != id@,
            decreases self.rows@.len() - i,
        {
            match compare_keys(id.as_str(), self.rows[i].dict_type_id.as_str()) {
                KeyCmp::Equal => {
                    proof {
                        assert(views_of(self.rows@)[i as int].dict_type_id == id@);
                    }
                    return true;
                },
                _ => {},
            }
            i += 1;
        }
        false
    }
}

/// Where the scan of `find_insert_pos` stops is exactly `spec_insert_pos`.
proof fn lemma_insert_pos_agrees(rows: Seq<ModelV>, id: Seq<char>, k: int)
    requires
        0 <= k <= rows.len(),
        forall|j: int| 0 <= j < k ==> !str_lt(id, rows[j].dict_type_id),
        k < rows.len() ==> str_lt(id, rows[k].dict_type_id),
    ensures
        spec_insert_pos(rows, id) == k,
    decreases rows.len(),
{
    if rows.len() == 0 {
    } else if str_lt(id, rows[0].dict_type_id) {
        assert(k == 0);
    } else {
        assert(k >= 1);
        let rest = rows.skip(1);
        assert(forall|j: int| 0 <= j < k - 1 ==> #[trigger] rest[j] == rows[j + 1]);
        lemma_insert_pos_agrees(rest, id, k - 1);
    }
}

/// Inserting at the position the scan found keeps the rows sorted.
proof fn lemma_sorted_insert(rows: Seq<ModelV>, m: ModelV, k: int)
    requires
        sorted_by_id(rows),
        0 <= k <= rows.len(),
        forall|j: int| 0 <= j < k ==> str_lt(rows[j].dict_type_id, m.dict_type_id),
        k < rows.len() ==> str_lt(m.dict_type_id, rows[k].dict_type_id),
    ensures
        sorted_by_id(rows.insert(k, m)),
{
    let out = rows.insert(k, m);
    assert forall|i: int, j: int|
        0 <= i < j < out.len() implies str_lt(out[i].dict_type_id, out[j].dict_type_id) by {
        if i == k && j > k {
            if j - 1 > k {
                lemma_str_lt_trans(
                    m.dict_type_id,
                    rows[k].dict_type_id,
                    rows[j - 1].dict_type_id,
                );
            }
        }
    }
}

/// The index of the first row whose key is greater than `id`, by scan.
#[verifier::loop_isolation(false)]
fn find_insert_pos(rows: &Vec<DictTypeModel>, id: &String) -> (pos: usize)
    requires
        sorted_by_id(views_of(rows@)),
        !id_exists(views_of(rows@), id@),
    ensures
        pos <= rows@.len(),
        forall|j: int| 0 <= j < pos ==> str_lt(views_of(rows@)[j].dict_type_id, id@),
        pos < rows@.len() ==> str_lt(id@, views_of(rows@)[pos as int].dict_type_id),
{
    let mut i: usize = 0;
    while i < rows.len()
        invariant
            i <= rows@.len(),
            forall|j: int| 0 <= j < i ==> str_lt(views_of(rows@)[j].dict_type_id, id@),
        decreases rows@.len() - i,
    {
        match compare_keys(id.as_str(), rows[i].dict_type_id.as_str()) {
            KeyCmp::Less => {
                return i;
            },
            KeyCmp::Equal => {
                proof {
                    let w = views_of(rows@);
                    assert((i as int) < w.len() && w[i as int].dict_type_id == id@);
                    assert(id_exists(w, id@));
                    assert(false);
                }
            },
            KeyCmp::Greater => {},
        }
        i += 1;
    }
    i
}

impl DictTypeTable {
    /// Insert a row with a fresh primary key at its sorted position.
    fn insert_row(&mut self, m: DictTypeModel)
        requires
            old(self).wf(),
            !id_exists(old(self)@, m@.dict_type_id),
        ensures
            final(self).wf(),
            final(self)@ == old(self)@.insert(
                spec_insert_pos(old(self)@, m@.dict_type_id),
                m@,
            ),
    {
        let ghost vs = views_of(self.rows@);
        let pos = find_insert_pos(&self.rows, &m.dict_type_id);
        proof {
            assert forall|j: int| 0 <= j < pos implies !str_lt(m@.dict_type_id, vs[j].dict_type_id) by {
                lemma_str_lt_asym(vs[j].dict_type_id, m@.dict_type_id);
            }
            lemma_insert_pos_agrees(vs, m@.dict_type_id, pos as int);
            lemma_sorted_insert(vs, m@, pos as int);
            lemma_views_insert(self.rows@, pos as int, m);
        }
        self.rows.insert(pos, m);
    }

    /// Create a row from a payload, a caller-supplied primary key and a
    /// creation time. The natural key must be new, or the payload is
    /// rejected as a duplicate. A caller-supplied key that is already
    /// taken leaves the table unchanged, as the underlying store refuses a
    /// second row with the same key; the reply still carries the key.
    pub fn add_with(&mut self, req: AddReq, dict_type_id: String, created_at: i64) -> (r: Result<
        String,
        DictError,
    >)
        requires
            old(self).wf(),
        ensures
            final(self).wf(),
            type_exists(old(self)@, req@.dict_type) ==> r == Result::<String, DictError>::Err(
                DictError::DuplicateDictType,
            ) && final(self)@ == old(self)@,
            !type_exists(old(self)@, req@.dict_type) && id_exists(old(self)@, dict_type_id@)
                ==> (r matches Ok(id) && id@ == dict_type_id@ && final(self)@ == old(self)@),
            !type_exists(old(self)@, req@.dict_type) && !id_exists(old(self)@, dict_type_id@)
                ==> (r matches Ok(id) && id@ == dict_type_id@ && final(self)@ == old(
                self,
            )@.insert(
                spec_insert_pos(old(self)@, dict_type_id@),
                spec_new_row(req@, dict_type_id@, created_at),
            )),
    {
        let ghost reqv = req@;
        if self.check_dict_type_is_exist(req.dict_type.as_str()) {
            return Err(DictError::DuplicateDictType);
        }
        if self.contains_id(&dict_type_id) {
            return Ok(dict_type_id);
        }
        let id_out = dict_type_id.clone();
        let status: u8 = match req.status {
            Some(s) => s,
            None => 1,
        };
        let remark: String = match req.remark {
            Some(r) => r,
            None => String::new(),
        };
        let row = DictTypeModel {
            dict_type_id,
            dict_name: req.dict_name,
            dict_type: req.dict_type,
            status,
            remark,
            created_at: Some(created_at),
            updated_at: None,
            deleted_at: None,
        };
        proof {
            assert(row@ == spec_new_row(reqv, row@.dict_type_id, created_at));
        }
        self.insert_row(row);
        Ok(id_out)
    }

    /// Create a row from a payload: generate the primary key and the
    /// creation time, then insert as `add_with` does. The generated key is
    /// 25 digits long.
    pub fn add(&mut self, req: AddReq) -> (r: Result<String, DictError>)
        requires
            old(self).wf(),
        ensures
            final(self).wf(),
            r is Err <==> type_exists(old(self)@, req@.dict_type),
            r matches Err(e) ==> e == DictError::DuplicateDictType && final(self)@ == old(self)@,
            r matches Ok(id) ==> id@.len() == 25 && (
                (id_exists(old(self)@, id@) && final(self)@ == old(self)@)
                || (!id_exists(old(self)@, id@) && exists|now: i64|
                    final(self)@ == old(self)@.insert(
                        spec_insert_pos(old(self)@, id@),
                        spec_new_row(req@, id@, now),
                    ))),
    {
        let uid = generate_id();
        let now = now_timestamp();
        self.add_with(req, uid, now)
    }
}

/// One scan step extends the filtered prefix by the row just examined, if
/// it matches.
proof fn lemma_filtered_take_step(rows: Seq<ModelV>, f: SearchReqV, i: int)
    requires
        0 <= i < rows.len(),
    ensures
        spec_filtered(rows.take(i + 1), f) == if spec_matches(f, rows[i]) {
            spec_filtered(rows.take(i), f).push(rows[i])
        } else {
            spec_filtered(rows.take(i), f)
        },
{
    reveal(Seq::filter);
    assert(rows.take(i + 1).drop_last() =~= rows.take(i));
    assert(rows.take(i + 1).last() == rows[i]);
}

/// Filtering an empty sequence yields an empty sequence.
proof fn lemma_filter_empty(pred: spec_fn(ModelV) -> bool)
    ensures
        Seq::<ModelV>::empty().filter(pred) == Seq::<ModelV>::empty(),
{
    reveal(Seq::filter);
}

/// Filtering keeps the rows' order, so it keeps them sorted.
proof fn lemma_sorted_filter(rows: Seq<ModelV>, pred: spec_fn(ModelV) -> bool)
    requires
        sorted_by_id(rows),
    ensures
        sorted_by_id(rows.filter(pred)),
    decreases rows.len(),
{
    reveal(Seq::filter);
    if rows.len() > 0 {
        let rest = rows.drop_last();
        let last = rows.last();
        assert(sorted_by_id(rest));
        lemma_sorted_filter(rest, pred);
        if pred(last) {
            let f = rest.filter(pred);
            assert forall|i: int|
                0 <= i < f.len() implies str_lt(f[i].dict_type_id, last.dict_type_id) by {
                assert(f.contains(f[i]));
                rest.lemma_filter_contains_rev(pred, f[i]);
                let j = choose|j: int| 0 <= j < rest.len() && rest[j] == f[i];
                assert(str_lt(rows[j].dict_type_id, last.dict_type_id));
            }
            let out = rows.filter(pred);
            assert(out == f.push(last));
            assert forall|i: int, j: int|
                0 <= i < j < out.len() implies str_lt(
                out[i].dict_type_id,
                out[j].dict_type_id,
            ) by {
                if j < f.len() {
                    assert(out[i] == f[i] && out[j] == f[j]);
                } else {
                    assert(out[j] == last);
                }
            }
        }
    }
}

/// Whether a row satisfies a search filter.
fn row_matches(req: &SearchReq, m: &DictTypeModel) -> (r: bool)
    ensures
        r == spec_matches(req@, m@),
{
    match &req.dict_name {
        Some(x) => {
            if !(*x == m.dict_name) {
                return false;
            }
        },
        None => {},
    }
    match &req.dict_type {
        Some(x) => {
            if !(*x == m.dict_type) {
                return false;
            }
        },
        None => {},
    }
    match req.status {
        Some(x) => {
            if m.status != x {
                return false;
            }
        },
        None => {},
    }
    match req.begin_time {
        Some(b) => {
            match m.created_at {
                Some(t) => {
                    if t < b {
                        return false;
                    }
                },
                None => {
                    return false;
                },
            }
        },
        None => {},
    }
    match req.end_time {
        Some(e) => {
            match m.created_at {
                Some(t) => {
                    if t > e {
                        return false;
                    }
                },
                None => {
                    return false;
                },
            }
        },
        None => {},
    }
    true
}

impl DictTypeTable {
    /// The rows satisfying a filter, in table order, as fresh copies.
    #[verifier::loop_isolation(false)]
    fn filtered_rows(&self, req: &SearchReq) -> (out: Vec<DictTypeModel>)
        ensures
            views_of(out@) == spec_filtered(self@, req@),
    {
        let mut out: Vec<DictTypeModel> = Vec::new();
        proof {
            lemma_filter_empty(match_pred(req@));
            assert(self@.take(0) =~= Seq::<ModelV>::empty());
            assert(views_of(out@) =~= Seq::<ModelV>::empty());
        }
        let mut i: usize = 0;
        while i < self.rows.len()
            invariant
                i <= self.rows@.len(),
                out@.len() <= i,
                views_of(out@) == spec_filtered(self@.take(i as int), req@),
            decreases self.rows@.len() - i,
        {
            let m = &self.rows[i];
            proof {
                assert(m@ == self@[i as int]);
            }
            if row_matches(req, m) {
                let c = m.clone();
                let ghost prev = out@;
                out.push(c);
                proof {
                    assert(views_of(out@) =~= views_of(prev).push(self@[i as int]));
                }
            }
            proof {
                lemma_filtered_take_step(self@, req@, i as int);
            }
            i += 1;
        }
        proof {
            assert(self@.take(self@.len() as int) =~= self@);
        }
        out
    }

    /// One page of the rows satisfying a filter, together with the total
    /// count over every page, the page count and the served page number.
    /// The served slice is exactly the requested page of the filtered
    /// result set, in table order; a page past the end is empty. The total
    /// and the page count depend only on the table and the filter, never on
    /// which page is requested.
    #[verifier::loop_isolation(false)]
    pub fn get_sort_list(&self, page_params: &PageParams, req: &SearchReq) -> (r: ListData<
        DictTypeModel,
    >)
        requires
            match page_params.page_num {
                Some(n) => n >= 1,
                None => true,
            },
            match page_params.page_size {
                Some(s) => s >= 1,
                None => true,
            },
        ensures
            r.page_num == spec_page_num(*page_params),
            r.total as int == spec_filtered(self@, req@).len(),
            r.total_pages as int == spec_num_pages(
                spec_filtered(self@, req@).len() as int,
                spec_page_size(*page_params) as int,
            ),
            views_of(r.list@) == spec_page(
                spec_filtered(self@, req@),
                spec_page_size(*page_params) as int,
                spec_page_num(*page_params) as int - 1,
            ),
    {
        let page_num: u64 = match page_params.page_num {
            Some(n) => n,
            None => 1,
        };
        let page_size: u64 = match page_params.page_size {
            Some(s) => s,
            None => 10,
        };
        let filtered = self.filtered_rows(req);
        let ghost flt = views_of(filtered@);
        let total_usize = filtered.len();
        let total = total_usize as u64;
        let total_pages = num_pages(total, page_size);
        let mut list: Vec<DictTypeModel> = Vec::new();
        let page0 = page_num - 1;
        if page0 < total_pages {
            proof {
                lemma_page_in_range(total as int, page_size as int, page0 as int);
            }
            let off = page0 * page_size;
            let off_us = off as usize;
            let end = if page_size < total - off {
                off + page_size
            } else {
                total
            };
            let end_us = end as usize;
            proof {
                assert(end as int == clipped(
                    page0 as int * page_size as int + page_size as int,
                    flt.len() as int,
                ));
                assert(views_of(list@) =~= flt.subrange(off as int, off as int));
            }
            let mut j: usize = off_us;
            while j < end_us
                invariant
                    off_us <= j <= end_us,
                    end_us <= filtered@.len(),
                    views_of(list@) == flt.subrange(off as int, j as int),
                decreases end_us - j,
            {
                let m = &filtered[j];
                let c = m.clone();
                let ghost prev = list@;
                list.push(c);
                proof {
                    assert(views_of(list@) =~= views_of(prev).push(flt[j as int]));
                    assert(flt.subrange(off as int, j as int + 1) =~= flt.subrange(
                        off as int,
                        j as int,
                    ).push(flt[j as int]));
                }
                j += 1;
            }
            proof {
                assert(views_of(list@) == spec_page(flt, page_size as int, page0 as int));
            }
        } else {
            proof {
                lemma_page_out_of_range(total as int, page_size as int, page0 as int);
                assert(views_of(list@) =~= Seq::<ModelV>::empty());
                assert(spec_page(flt, page_size as int, page0 as int) =~= Seq::<
                    ModelV,
                >::empty());
            }
        }
        ListData { list, total, total_pages, page_num }
    }
}

/// Whether a key is among the listed ones, by scan.
#[verifier::loop_isolation(false)]
pub(crate) fn id_in_list(id: &String, ids: &Vec<String>) -> (r: bool)
    ensures
        r == spec_in_ids(id@, strings_view(ids@)),
{
    let mut j: usize = 0;
    while j < ids.len()
        invariant
            j <= ids@.len(),
            forall|k: int| 0 <= k < j ==> strings_view(ids@)[k] != id@,
        decreases ids@.len() - j,
    {
        if *id == ids[j] {
            proof {
                assert(strings_view(ids@)[j as int] == id@);
            }
            return true;
        }
        j += 1;
    }
    false
}

/// One scan step extends the retained prefix by the row just examined, if
/// its key is not listed.
proof fn lemma_retained_take_step(rows: Seq<ModelV>, ids: Seq<Seq<char>>, i: int)
    requires
        0 <= i < rows.len(),
    ensures
        spec_retained(rows.take(i + 1), ids) == if !spec_in_ids(rows[i].dict_type_id, ids) {
            spec_retained(rows.take(i), ids).push(rows[i])
        } else {
            spec_retained(rows.take(i), ids)
        },
{
    reveal(Seq::filter);
    assert(rows.take(i + 1).drop_last() =~= rows.take(i));
    assert(rows.take(i + 1).last() == rows[i]);
}

impl DictTypeTable {
    /// Bulk delete by primary keys. Every row whose key is listed is
    /// removed; a delete that matches nothing is an error, and one that
    /// matches some rows reports how many were removed.
    #[verifier::loop_isolation(false)]
    pub fn ddelete(&mut self, req: &DeleteReq) -> (r: Result<u64, DictError>)
        requires
            old(self).wf(),
        ensures
            final(self).wf(),
            final(self)@ == spec_retained(old(self)@, req@),
            final(self)@.len() < old(self)@.len() ==> (r matches Ok(n) && n as int == old(
                self,
            )@.len() - final(self)@.len()),
            final(self)@.len() == old(self)@.len() ==> r == Result::<u64, DictError>::Err(
                DictError::NothingDeleted,
            ),
    {
        let ghost vs = self@;
        let mut kept: Vec<DictTypeModel> = Vec::new();
        proof {
            lemma_filter_empty(retained_pred(req@));
            assert(vs.take(0) =~= Seq::<ModelV>::empty());
            assert(views_of(kept@) =~= Seq::<ModelV>::empty());
        }
        let n_before = self.rows.len();
        let mut i: usize = 0;
        while i < n_before
            invariant
                i <= vs.len(),
                kept@.len() <= i,
                views_of(kept@) == spec_retained(vs.take(i as int), req@),
            decreases vs.len() - i,
        {
            let m = &self.rows[i];
            proof {
                assert(m@ == vs[i as int]);
            }
            if !id_in_list(&m.dict_type_id, &req.dict_type_ids) {
                let c = m.clone();
                let ghost prev = kept@;
                kept.push(c);
                proof {
                    assert(views_of(kept@) =~= views_of(prev).push(vs[i as int]));
                }
            }
            proof {
                lemma_retained_take_step(vs, req@, i as int);
            }
            i += 1;
        }
        proof {
            assert(vs.take(vs.len() as int) =~= vs);
            lemma_sorted_filter(vs, retained_pred(req@));
        }
        let n_kept = kept.len();
        self.rows = kept;
        if n_kept == n_before {
            Err(DictError::NothingDeleted)
        } else {
            Ok((n_before - n_kept) as u64)
        }
    }
}

/// What a bulk delete answers for the number of rows the store removed:
/// zero rows is a user-facing error, any other count is reported.
pub fn delete_outcome(rows_affected: u64) -> (r: Result<u64, DictError>)
    ensures
        rows_affected == 0 ==> r == Result::<u64, DictError>::Err(DictError::NothingDeleted),
        rows_affected > 0 ==> r == Result::<u64, DictError>::Ok(rows_affected),
{
    if rows_affected == 0 {
        Err(DictError::NothingDeleted)
    } else {
        Ok(rows_affected)
    }
}

/// Where the scan of `find_index` stops is exactly `spec_idx_of`.
proof fn lemma_idx_of_agrees(rows: Seq<ModelV>, id: Seq<char>, k: int)
    requires
        0 <= k < rows.len(),
        rows[k].dict_type_id == id,
        forall|j: int| 0 <= j < k ==> rows[j].dict_type_id != id,
    ensures
        spec_idx_of(rows, id) == k,
    decreases rows.len(),
{
    if rows[0].dict_type_id == id {
        assert(k == 0);
    } else {
        let rest = rows.skip(1);
        assert(forall|j: int| 0 <= j < k - 1 ==> #[trigger] rest[j] == rows[j + 1]);
        lemma_idx_of_agrees(rest, id, k - 1);
    }
}

/// The index of the first row carrying this primary key, by scan.
#[verifier::loop_isolation(false)]
fn find_index(rows: &Vec<DictTypeModel>, id: &String) -> (r: Option<usize>)
    ensures
        match r {
            Some(k) => k < rows@.len() && views_of(rows@)[k as int].dict_type_id == id@ && k as int
                == spec_idx_of(views_of(rows@), id@),
            None => !id_exists(views_of(rows@), id@),
        },
{
    let mut i: usize = 0;
    while i < rows.len()
        invariant
            i <= rows@.len(),
            forall|j: int| 0 <= j < i ==> views_of(rows@)[j].dict_type_id != id@,
        decreases rows@.len() - i,
    {
        match compare_keys(id.as_str(), rows[i].dict_type_id.as_str()) {
            KeyCmp::Equal => {
                proof {
                    lemma_idx_of_agrees(views_of(rows@), id@, i as int);
                }
                return Some(i);
            },
            _ => {},
        }
        i += 1;
    }
    None
}

/// Replacing a row by one with the same key keeps the rows sorted.
proof fn lemma_sorted_update_same_id(rows: Seq<ModelV>, k: int, m: ModelV)
    requires
        sorted_by_id(rows),
        0 <= k < rows.len(),
        m.dict_type_id == rows[k].dict_type_id,
    ensures
        sorted_by_id(rows.update(k, m)),
{
    let out = rows.update(k, m);
    assert forall|i: int, j: int|
        0 <= i < j < out.len() implies str_lt(out[i].dict_type_id, out[j].dict_type_id) by {
        assert(str_lt(rows[i].dict_type_id, rows[j].dict_type_id));
    }
}

impl DictTypeTable {
    /// Update the row carrying the payload's primary key from a payload and
    /// an update time: the stored row is fetched, the payload's fields are
    /// laid over it, and the merged row is written back. A key no row
    /// carries is a not-found error and leaves the table unchanged.
    pub fn edit_with(&mut self, req: EditReq, updated_at: i64) -> (r: Result<String, DictError>)
        requires
            old(self).wf(),
        ensures
            final(self).wf(),
            !id_exists(old(self)@, req@.dict_type_id) ==> r == Result::<String, DictError>::Err(
                DictError::NotFound,
            ) && final(self)@ == old(self)@,
            id_exists(old(self)@, req@.dict_type_id) ==> (r matches Ok(id) && id@
                == req@.dict_type_id && final(self)@ == old(self)@.update(
                spec_idx_of(old(self)@, req@.dict_type_id),
                spec_merged(
                    old(self)@[spec_idx_of(old(self)@, req@.dict_type_id)],
                    req@,
                    updated_at,
                ),
            )),
    {
        let ghost vs = self@;
        let ghost reqv = req@;
        match find_index(&self.rows, &req.dict_type_id) {
            None => Err(DictError::NotFound),
            Some(k) => {
                proof {
                    assert((k as int) < vs.len() && vs[k as int].dict_type_id == reqv.dict_type_id);
                    assert(id_exists(vs, reqv.dict_type_id));
                }
                let ghost rows_before = self.rows@;
                let old_row = self.rows.remove(k);
                let merged = DictTypeModel {
                    dict_type_id: old_row.dict_type_id,
                    dict_name: req.dict_name,
                    dict_type: req.dict_type,
                    status: req.status,
                    remark: req.remark,
                    created_at: old_row.created_at,
                    updated_at: Some(updated_at),
                    deleted_at: old_row.deleted_at,
                };
                proof {
                    assert(merged@ == spec_merged(vs[k as int], reqv, updated_at));
                }
                self.rows.insert(k, merged);
                proof {
                    assert(self.rows@ =~= rows_before.update(k as int, merged));
                    assert(self@ =~= vs.update(k as int, merged@));
                    lemma_sorted_update_same_id(vs, k as int, merged@);
                }
                Ok(req.dict_type_id)
            },
        }
    }

    /// Update the row carrying the payload's primary key, stamping the
    /// current time as the update time.
    pub fn edit(&mut self, req: EditReq) -> (r: Result<String, DictError>)
        requires
            old(self).wf(),
        ensures
            final(self).wf(),
            !id_exists(old(self)@, req@.dict_type_id) ==> r == Result::<String, DictError>::Err(
                DictError::NotFound,
            ) && final(self)@ == old(self)@,
            id_exists(old(self)@, req@.dict_type_id) ==> (r matches Ok(id) && id@
                == req@.dict_type_id && exists|now: i64|
                final(self)@ == old(self)@.update(
                    spec_idx_of(old(self)@, req@.dict_type_id),
                    spec_merged(old(self)@[spec_idx_of(old(self)@, req@.dict_type_id)], req@, now),
                )),
    {
        let now = now_timestamp();
        self.edit_with(req, now)
    }

    /// Look up the visible row carrying the requested primary key. A
    /// request without a key is a parameter error; a key no visible row
    /// carries is a not-found error; otherwise the row is returned, never
    /// an empty payload.
    #[verifier::loop_isolation(false)]
    pub fn get_by_id(&self, req: &SearchReq) -> (r: Result<Resp, DictError>)
        ensures
            req@.dict_type_id is None ==> r == Result::<Resp, DictError>::Err(
                DictError::MissingId,
            ),
            req@.dict_type_id matches Some(id) ==> {
                &&& (visible_id_exists(self@, id) ==> (r matches Ok(resp) && exists|k: int|
                    0 <= k < self@.len() && self@[k].dict_type_id == id && spec_visible(self@[k])
                        && resp@ == spec_resp_of(self@[k])))
                &&& (!visible_id_exists(self@, id) ==> r == Result::<Resp, DictError>::Err(
                    DictError::NotFound,
                ))
            },
    {
        let id = match &req.dict_type_id {
            Some(x) => x,
            None => {
                return Err(DictError::MissingId);
            },
        };
        let mut i: usize = 0;
        while i < self.rows.len()
            invariant
                i <= self.rows@.len(),
                forall|j: int|
                    0 <= j < i ==> !(self@[j].dict_type_id == id@ && spec_visible(self@[j])),
            decreases self.rows@.len() - i,
        {
            let m = &self.rows[i];
            proof {
                assert(m@ == self@[i as int]);
            }
            let visible = match m.deleted_at {
                Some(_) => false,
                None => true,
            };
            if visible {
                match compare_keys(id.as_str(), m.dict_type_id.as_str()) {
                    KeyCmp::Equal => {
                        let resp = Resp {
                            dict_type_id: m.dict_type_id.clone(),
                            dict_name: m.dict_name.clone(),
                            dict_type: m.dict_type.clone(),
                            status: m.status,
                            remark: m.remark.clone(),
                        };
                        proof {
                            assert(resp@ == spec_resp_of(self@[i as int]));
                            assert(visible_id_exists(self@, id@));
                        }
                        return Ok(resp);
                    },
                    _ => {},
                }
            }
            i += 1;
        }
        Err(DictError::NotFound)
    }
}

/// One scan step extends the get-all prefix by the row just examined, if
/// it is visible and active.
proof fn lemma_all_active_take_step(rows: Seq<ModelV>, i: int)
    requires
        0 <= i < rows.len(),
    ensures
        spec_all_active(rows.take(i + 1)) == if spec_visible(rows[i]) && rows[i].status == 1 {
            spec_all_active(rows.take(i)).push(spec_resp_of(rows[i]))
        } else {
            spec_all_active(rows.take(i))
        },
{
    reveal(Seq::filter);
    assert(rows.take(i + 1).drop_last() =~= rows.take(i));
    assert(rows.take(i + 1).last() == rows[i]);
    let p = active_pred();
    if p(rows[i]) {
        let f = rows.take(i).filter(p);
        assert(rows.take(i + 1).filter(p) == f.push(rows[i]));
        assert(f.push(rows[i]).map_values(|m: ModelV| spec_resp_of(m)) =~= f.map_values(
            |m: ModelV| spec_resp_of(m),
        ).push(spec_resp_of(rows[i])));
    }
}

impl DictTypeTable {
    /// Every visible, active row, in table order, in the response shape.
    #[verifier::loop_isolation(false)]
    pub fn get_all(&self) -> (r: Vec<Resp>)
        ensures
            resps_view(r@) == spec_all_active(self@),
    {
        let mut out: Vec<Resp> = Vec::new();
        proof {
            lemma_filter_empty(active_pred());
            assert(self@.take(0) =~= Seq::<ModelV>::empty());
            assert(Seq::<ModelV>::empty().map_values(|m: ModelV| spec_resp_of(m)) =~= Seq::<
                RespV,
            >::empty());
            assert(resps_view(out@) =~= Seq::<RespV>::empty());
        }
        let mut i: usize = 0;
        while i < self.rows.len()
            invariant
                i <= self.rows@.len(),
                resps_view(out@) == spec_all_active(self@.take(i as int)),
            decreases self.rows@.len() - i,
        {
            let m = &self.rows[i];
            proof {
                assert(m@ == self@[i as int]);
            }
            let visible = match m.deleted_at {
                Some(_) => false,
                None => true,
            };
            if visible && m.status == 1 {
                let resp = Resp {
                    dict_type_id: m.dict_type_id.clone(),
                    dict_name: m.dict_name.clone(),
                    dict_type: m.dict_type.clone(),
                    status: m.status,
                    remark: m.remark.clone(),
                };
                let ghost prev = out@;
                proof {
                    assert(resp@ == spec_resp_of(self@[i as int]));
                }
                out.push(resp);
                proof {
                    assert(resps_view(out@) =~= resps_view(prev).push(spec_resp_of(
                        self@[i as int],
                    )));
                }
            }
            proof {
                lemma_all_active_take_step(self@, i as int);
            }
            i += 1;
        }
        proof {
            assert(self@.take(self@.len() as int) =~= self@);
        }
        out
    }
}

/// The position a new key lands at is within the table.
proof fn lemma_insert_pos_bounds(rows: Seq<ModelV>, id: Seq<char>)
    ensures
        0 <= spec_insert_pos(rows, id) <= rows.len(),
    decreases rows.len(),
{
    if rows.len() > 0 && !str_lt(id, rows[0].dict_type_id) {
        lemma_insert_pos_bounds(rows.skip(1), id);
    }
}

/// Law: for a fixed table and filter, the pages of the listing partition
/// the filtered result set: the slices `get_sort_list` serves for pages 1
/// up to the page count, concatenated in page order, are exactly the
/// filtered rows, with no duplicate and no gap.
pub proof fn lemma_listing_pages_cover(rows: Seq<ModelV>, f: SearchReqV, size: int)
    requires
        size >= 1,
    ensures
        spec_pages_concat(
            spec_filtered(rows, f),
            size,
            spec_num_pages(spec_filtered(rows, f).len() as int, size),
        ) == spec_filtered(rows, f),
{
    lemma_pages_cover(spec_filtered(rows, f), size);
}

/// Law: creating two rows with the same natural key in sequence fails the
/// second creation. After a creation that inserted its row, the natural key
/// exists in the table, and by `add_with`'s contract a creation whose
/// natural key exists is rejected as a duplicate and leaves the table
/// unchanged.
pub proof fn lemma_second_add_rejected(
    rows: Seq<ModelV>,
    req: AddReqV,
    id: Seq<char>,
    now: i64,
    req2: AddReqV,
)
    requires
        req2.dict_type == req.dict_type,
    ensures
        type_exists(
            rows.insert(spec_insert_pos(rows, id), spec_new_row(req, id, now)),
            req2.dict_type,
        ),
{
    lemma_insert_pos_bounds(rows, id);
    let k = spec_insert_pos(rows, id);
    let out = rows.insert(k, spec_new_row(req, id, now));
    assert(out[k] == spec_new_row(req, id, now));
    assert(out[k].dict_type == req2.dict_type);
    assert(type_exists(out, req2.dict_type));
}

} // verus!
