use vstd::prelude::*;

use crate::base62::{encode, encode_digits, lemma_no_leading_zero, lemma_round_trip};
use crate::error::AppError;
use crate::models::{trim_spec, validation_result, CreateUrlRequest, Url, UrlView};
use crate::store::{find_id, insert_position, UrlStore};

verus! {

pub const MSG_IDS_EXHAUSTED: &'static str = "No identifiers are left";

/// The record that creating `target` at time `now` yields, with identifier
/// `id`.
pub open spec fn created_view(id: i64, target: Seq<char>, now: i64) -> UrlView {
    UrlView {
        id,
        short_code: encode_digits(id as nat),
        original_url: target,
        clicks: 0,
        created_at: now,
    }
}

/// Creates a record for `target`: a fresh identifier, then the code derived
/// from it. `None` when identifiers have run out.
fn create_record(store: &mut UrlStore, target: &str, now: i64) -> (r: Option<Url>)
    requires
        old(store).wf(),
    ensures
        final(store).wf(),
        old(store).next_id() == i64::MAX ==> r is None && *final(store) == *old(store),
        old(store).next_id() < i64::MAX ==> (r matches Some(u) && u@ == created_view(
            old(store).next_id(),
            target@,
            now,
        ) && final(store).next_id() == old(store).next_id() + 1 && final(store).records()
            == old(store).records().insert(insert_position(old(store).records(), now) as int, u@)
            && find_id(final(store).records(), u.id) == Some(u@)),
{
    let placeholder = match store.insert(target, now) {
        Some(p) => p,
        None => return None,
    };
    let id = placeholder.id;
    let ghost before = store.records();
    proof {
        old(store).lemma_next_id_positive();
        let w = crate::store::insert_position(old(store).records(), now) as int;
        assert(before[w] == placeholder@);
    }
    let code = encode(id);
    let r = store.assign_code(id, code.as_str());
    proof {
        let recs = store.records();
        let w = crate::store::insert_position(old(store).records(), now) as int;
        assert(recs[w].id == id);
        let k = choose|k: int| 0 <= k < recs.len() && recs[k].id == id;
        store.lemma_id_unique(k, w);
        assert(recs[w] == (UrlView { short_code: code@, ..placeholder@ }));
        assert forall|i: int| 0 <= i < recs.len() && i != w implies recs[i] == before[i] by {
            if before[i].id == id {
                store.lemma_id_unique(i, w);
            }
        }
        assert(recs =~= old(store).records().insert(w, recs[w]));
    }
    r
}

/// A record that creation is about to add, with the next identifier and its
/// code, differs from every record already stored: their identifiers are
/// smaller and their codes are other codes.
pub proof fn lemma_new_record_is_fresh(s: &UrlStore, now: i64, target: Seq<char>, i: int)
    requires
        s.wf(),
        s.next_id() < i64::MAX,
        0 <= i < s.records().len(),
    ensures
        s.records()[i].id < created_view(s.next_id(), target, now).id,
        s.records()[i].short_code != created_view(s.next_id(), target, now).short_code,
{
    let r = s.records()[i];
    s.lemma_record_fits(i);
    s.lemma_next_id_positive();
    lemma_no_leading_zero(s.next_id());
    if r.short_code == encode_digits(s.next_id() as nat) {
        lemma_round_trip(r.id);
        lemma_round_trip(s.next_id());
    }
}

/// The creation of short URLs.
pub struct UrlService;

impl UrlService {
    /// Validates the request, then stores its URL under a fresh identifier
    /// and the code derived from it. A rejected URL leaves the store as it
    /// was.
    pub fn create(store: &mut UrlStore, request: &CreateUrlRequest, now: i64) -> (r: Result<
        Url,
        AppError,
    >)
        requires
            old(store).wf(),
        ensures
            final(store).wf(),
            validation_result(trim_spec(request.url@)) matches Err(m) ==> (r matches Err(
                AppError::BadRequest(e),
            ) && e@ == m@ && *final(store) == *old(store)),
            validation_result(trim_spec(request.url@)) is Ok && old(store).next_id() == i64::MAX
                ==> (r matches Err(AppError::Internal(e)) && e@ == MSG_IDS_EXHAUSTED@
                && *final(store) == *old(store)),
            validation_result(trim_spec(request.url@)) is Ok && old(store).next_id() < i64::MAX
                ==> (r matches Ok(u) && u@ == created_view(
                old(store).next_id(),
                request.url@,
                now,
            ) && final(store).next_id() == old(store).next_id() + 1 && final(store).records()
                == old(store).records().insert(
                insert_position(old(store).records(), now) as int,
                u@,
            ) && find_id(final(store).records(), u.id) == Some(u@)),
    {
        match request.validate() {
            Err(m) => return Err(AppError::BadRequest(m.to_owned())),
            Ok(()) => {},
        }
        match create_record(store, request.url.as_str(), now) {
            Some(u) => Ok(u),
            None => Err(AppError::Internal(MSG_IDS_EXHAUSTED.to_owned())),
        }
    }
}

} // verus!
