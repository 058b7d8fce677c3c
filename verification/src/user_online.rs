//! The online-session table: bulk delete by session id and logging a user
//! out by token. The same store model as the dictionary-type table, without
//! an ordering invariant: sessions are kept in arrival order.

use vstd::prelude::*;

use crate::models::strings_view;
use crate::order::{compare_keys, KeyCmp};
use crate::table::{id_in_list, spec_in_ids};

verus! {

/// An online-user session row. `login_time` is seconds since the Unix epoch.
pub struct OnlineModel {
    pub id: String,
    pub token_id: String,
    pub user_name: String,
    pub ipaddr: String,
    pub login_location: String,
    pub browser: String,
    pub os: String,
    pub login_time: i64,
}

/// Mathematical image of a session row.
pub struct OnlineModelV {
    pub id: Seq<char>,
    pub token_id: Seq<char>,
    pub user_name: Seq<char>,
    pub ipaddr: Seq<char>,
    pub login_location: Seq<char>,
    pub browser: Seq<char>,
    pub os: Seq<char>,
    pub login_time: i64,
}

impl View for OnlineModel {
    type V = OnlineModelV;

    open spec fn view(&self) -> OnlineModelV {
        OnlineModelV {
            id: self.id@,
            token_id: self.token_id@,
            user_name: self.user_name@,
            ipaddr: self.ipaddr@,
            login_location: self.login_location@,
            browser: self.browser@,
            os: self.os@,
            login_time: self.login_time,
        }
    }
}

impl Clone for OnlineModel {
    fn clone(&self) -> (r: Self)
        ensures
            r@ == self@,
    {
        OnlineModel {
            id: self.id.clone(),
            token_id: self.token_id.clone(),
            user_name: self.user_name.clone(),
            ipaddr: self.ipaddr.clone(),
            login_location: self.login_location.clone(),
            browser: self.browser.clone(),
            os: self.os.clone(),
            login_time: self.login_time,
        }
    }
}

/// The views of a sequence of session rows.
pub open spec fn online_views_of(rows: Seq<OnlineModel>) -> Seq<OnlineModelV> {
    rows.map_values(|m: OnlineModel| m@)
}

/// The survival predicate of a bulk delete, as a function value.
pub open spec fn online_retained_pred(ids: Seq<Seq<char>>) -> spec_fn(OnlineModelV) -> bool {
    |m: OnlineModelV| !spec_in_ids(m.id, ids)
}

/// The sessions that survive a bulk delete: those whose id is not listed.
pub open spec fn spec_online_retained(
    rows: Seq<OnlineModelV>,
    ids: Seq<Seq<char>>,
) -> Seq<OnlineModelV> {
    rows.filter(online_retained_pred(ids))
}

/// The predicate of a log-out, as a function value: the session survives if
/// it carries another token.
pub open spec fn other_token_pred(token: Seq<char>) -> spec_fn(OnlineModelV) -> bool {
    |m: OnlineModelV| m.token_id != token
}

/// The sessions that survive a log-out: those carrying another token.
pub open spec fn spec_without_token(
    rows: Seq<OnlineModelV>,
    token: Seq<char>,
) -> Seq<OnlineModelV> {
    rows.filter(other_token_pred(token))
}

/// Filtering an empty sequence yields an empty sequence.
proof fn lemma_online_filter_empty(pred: spec_fn(OnlineModelV) -> bool)
    ensures
        Seq::<OnlineModelV>::empty().filter(pred) == Seq::<OnlineModelV>::empty(),
{
    reveal(Seq::filter);
}

/// One scan step extends the filtered prefix by the row just examined, if
/// it survives.
proof fn lemma_online_filter_take_step(
    rows: Seq<OnlineModelV>,
    pred: spec_fn(OnlineModelV) -> bool,
    i: int,
)
    requires
        0 <= i < rows.len(),
    ensures
        rows.take(i + 1).filter(pred) == if pred(rows[i]) {
            rows.take(i).filter(pred).push(rows[i])
        } else {
            rows.take(i).filter(pred)
        },
{
    reveal(Seq::filter);
    assert(rows.take(i + 1).drop_last() =~= rows.take(i));
    assert(rows.take(i + 1).last() == rows[i]);
}

/// The online-session table.
pub struct OnlineTable {
    rows: Vec<OnlineModel>,
}

impl View for OnlineTable {
    type V = Seq<OnlineModelV>;

    closed spec fn view(&self) -> Seq<OnlineModelV> {
        online_views_of(self.rows@)
    }
}

impl OnlineTable {
    /// An empty table.
    pub fn new() -> (t: Self)
        ensures
            t@ == Seq::<OnlineModelV>::empty(),
    {
        let t = OnlineTable { rows: Vec::new() };
        proof {
            assert(t@ =~= Seq::<OnlineModelV>::empty());
        }
        t
    }

    /// How many sessions the table holds.
    pub fn session_count(&self) -> (n: usize)
        ensures
            n == self@.len(),
    {
        self.rows.len()
    }

    /// Record a session.
    pub fn record(&mut self, m: OnlineModel)
        ensures
            final(self)@ == old(self)@.push(m@),
    {
        let ghost prev = self.rows@;
        self.rows.push(m);
        proof {
            assert(online_views_of(self.rows@) =~= online_views_of(prev).push(
                self.rows@.last()@,
            ));
        }
    }

    /// Bulk delete by session id: every session whose id is listed is
    /// removed, and how many were removed is reported. The caller turns a
    /// zero count into the user-facing error (see `delete_outcome`).
    #[verifier::loop_isolation(false)]
    pub fn delete(&mut self, ids: &Vec<String>) -> (n: u64)
        ensures
            final(self)@ == spec_online_retained(old(self)@, strings_view(ids@)),
            n as int == old(self)@.len() - final(self)@.len(),
    {
        let ghost vs = self@;
        let mut kept: Vec<OnlineModel> = Vec::new();
        proof {
            lemma_online_filter_empty(online_retained_pred(strings_view(ids@)));
            assert(vs.take(0) =~= Seq::<OnlineModelV>::empty());
            assert(online_views_of(kept@) =~= Seq::<OnlineModelV>::empty());
        }
        let n_before = self.rows.len();
        let mut i: usize = 0;
        while i < n_before
            invariant
                i <= vs.len(),
                kept@.len() <= i,
                online_views_of(kept@) == spec_online_retained(
                    vs.take(i as int),
                    strings_view(ids@),
                ),
            decreases vs.len() - i,
        {
            let m = &self.rows[i];
            proof {
                assert(m@ == vs[i as int]);
            }
            if !id_in_list(&m.id, ids) {
                let c = m.clone();
                let ghost prev = kept@;
                kept.push(c);
                proof {
                    assert(online_views_of(kept@) =~= online_views_of(prev).push(vs[i as int]));
                }
            }
            proof {
                lemma_online_filter_take_step(vs, online_retained_pred(strings_view(ids@)), i as int);
            }
            i += 1;
        }
        proof {
            assert(vs.take(vs.len() as int) =~= vs);
        }
        let n_kept = kept.len();
        self.rows = kept;
        (n_before - n_kept) as u64
    }

    /// Log a user out: every session carrying this token is removed, and
    /// how many were removed is reported.
    #[verifier::loop_isolation(false)]
    pub fn log_out(&mut self, token_id: &str) -> (n: u64)
        ensures
            final(self)@ == spec_without_token(old(self)@, token_id@),
            n as int == old(self)@.len() - final(self)@.len(),
    {
        let ghost vs = self@;
        let mut kept: Vec<OnlineModel> = Vec::new();
        proof {
            lemma_online_filter_empty(other_token_pred(token_id@));
            assert(vs.take(0) =~= Seq::<OnlineModelV>::empty());
            assert(online_views_of(kept@) =~= Seq::<OnlineModelV>::empty());
        }
        let n_before = self.rows.len();
        let mut i: usize = 0;
        while i < n_before
            invariant
                i <= vs.len(),
                kept@.len() <= i,
                online_views_of(kept@) == spec_without_token(vs.take(i as int), token_id@),
            decreases vs.len() - i,
        {
            let m = &self.rows[i];
            proof {
                assert(m@ == vs[i as int]);
            }
            let keep = match compare_keys(token_id, m.token_id.as_str()) {
                KeyCmp::Equal => false,
                _ => true,
            };
            if keep {
                let c = m.clone();
                let ghost prev = kept@;
                kept.push(c);
                proof {
                    assert(online_views_of(kept@) =~= online_views_of(prev).push(vs[i as int]));
                }
            }
            proof {
                lemma_online_filter_take_step(vs, other_token_pred(token_id@), i as int);
            }
            i += 1;
        }
        proof {
            assert(vs.take(vs.len() as int) =~= vs);
        }
        let n_kept = kept.len();
        self.rows = kept;
        (n_before - n_kept) as u64
    }
}

} // verus!
