use vstd::prelude::*;

use crate::base62::{encode_digits, lemma_round_trip};
use crate::models::{opt_view, starts_with, Url, UrlView};

verus! {

/// Whether record `a` comes before record `b` in creation order: earlier
/// creation time first, then the smaller identifier.
pub open spec fn created_before(a: UrlView, b: UrlView) -> bool {
    a.created_at < b.created_at || (a.created_at == b.created_at && a.id < b.id)
}

/// Where a record created at `now` goes: after every record created no later
/// than `now`.
pub open spec fn insert_position(recs: Seq<UrlView>, now: i64) -> nat
    decreases recs.len(),
{
    if recs.len() > 0 && recs[0].created_at <= now {
        1 + insert_position(recs.drop_first(), now)
    } else {
        0
    }
}

/// `recs` from last to first.
pub open spec fn newest_first(recs: Seq<UrlView>) -> Seq<UrlView> {
    Seq::new(recs.len(), |i: int| recs[recs.len() - 1 - i])
}

/// The part of `s` that skips `offset` items and then holds at most `limit`.
pub open spec fn page(s: Seq<UrlView>, limit: int, offset: int) -> Seq<UrlView> {
    let lo = if offset < s.len() {
        offset
    } else {
        s.len() as int
    };
    let hi = if offset + limit < s.len() {
        offset + limit
    } else {
        s.len() as int
    };
    s.subrange(lo, hi)
}

/// `recs` without the records whose code is `code`, in the same order.
pub open spec fn without_code(recs: Seq<UrlView>, code: Seq<char>) -> Seq<UrlView>
    decreases recs.len(),
{
    if recs.len() == 0 {
        recs
    } else {
        let rest = without_code(recs.drop_last(), code);
        if recs.last().short_code == code {
            rest
        } else {
            rest.push(recs.last())
        }
    }
}

/// Whether every record with code `code` can take one more click.
pub open spec fn can_click(recs: Seq<UrlView>, code: Seq<char>) -> bool {
    forall|i: int| 0 <= i < recs.len() && recs[i].short_code == code ==> recs[i].clicks < i64::MAX
}

/// `recs` with one more click on each record whose code is `code`.
pub open spec fn clicked(recs: Seq<UrlView>, code: Seq<char>) -> Seq<UrlView> {
    Seq::new(
        recs.len(),
        |i: int|
            if recs[i].short_code == code {
                UrlView { clicks: (recs[i].clicks + 1) as i64, ..recs[i] }
            } else {
                recs[i]
            },
    )
}

/// Whether `k` is the position of the first record with code `code`.
pub open spec fn is_first_with_code(recs: Seq<UrlView>, code: Seq<char>, k: int) -> bool {
    &&& 0 <= k < recs.len()
    &&& recs[k].short_code == code
    &&& forall|i: int| 0 <= i < k ==> recs[i].short_code != code
}

/// The first record with code `code`, if any.
pub open spec fn find_code(recs: Seq<UrlView>, code: Seq<char>) -> Option<UrlView> {
    if exists|k: int| is_first_with_code(recs, code, k) {
        Some(recs[choose|k: int| is_first_with_code(recs, code, k)])
    } else {
        None
    }
}

/// The record with identifier `id`, if any.
pub open spec fn find_id(recs: Seq<UrlView>, id: i64) -> Option<UrlView> {
    if exists|k: int| 0 <= k < recs.len() && recs[k].id == id {
        Some(recs[choose|k: int| 0 <= k < recs.len() && recs[k].id == id])
    } else {
        None
    }
}

/// `recs` with the code of the record with identifier `id` set to `code`.
pub open spec fn with_code(recs: Seq<UrlView>, id: i64, code: Seq<char>) -> Seq<UrlView> {
    Seq::new(
        recs.len(),
        |i: int|
            if recs[i].id == id {
                UrlView { short_code: code, ..recs[i] }
            } else {
                recs[i]
            },
    )
}

pub proof fn lemma_first_unique(recs: Seq<UrlView>, code: Seq<char>, k: int)
    requires
        is_first_with_code(recs, code, k),
    ensures
        find_code(recs, code) == Some(recs[k]),
{
    let c = choose|j: int| is_first_with_code(recs, code, j);
    assert(is_first_with_code(recs, code, c));
    if c < k {
        assert(recs[c].short_code != code);
    } else if k < c {
        assert(recs[k].short_code != code);
    }
}

/// A record's code is either not yet assigned (empty) or the encoding of its
/// identifier.
pub open spec fn code_fits(u: UrlView) -> bool {
    u.short_code.len() == 0 || (u.id >= 0 && u.short_code == encode_digits(u.id as nat))
}

/// Adding a click for a code that no record holds succeeds and changes no
/// record.
pub proof fn lemma_click_unknown_code(recs: Seq<UrlView>, code: Seq<char>)
    requires
        forall|i: int| 0 <= i < recs.len() ==> recs[i].short_code != code,
    ensures
        can_click(recs, code),
        clicked(recs, code) == recs,
{
    assert(clicked(recs, code) =~= recs);
}

/// A listing is ordered newest first and holds `limit` records, or fewer when
/// fewer than `offset + limit` exist.
pub proof fn lemma_listing_order(s: &UrlStore, limit: int, offset: int)
    requires
        s.wf(),
        limit >= 0,
        offset >= 0,
    ensures
        ({
            let p = page(newest_first(s.records()), limit, offset);
            &&& forall|i: int, j: int|
                0 <= i < j < p.len() ==> created_before(p[j], p[i]) && p[j].created_at
                    <= p[i].created_at
            &&& p.len() == if offset >= s.records().len() {
                0
            } else if offset + limit <= s.records().len() {
                limit
            } else {
                s.records().len() - offset
            }
            &&& forall|i: int|
                0 <= i < p.len() ==> p[i] == s.records()[s.records().len() - 1 - offset - i]
        }),
{
    s.lemma_sorted();
}

/// Durable storage of mapping records, in creation order. Identifiers are
/// handed out from a counter that never goes back.
pub struct UrlStore {
    records: Vec<Url>,
    next_id: i64,
}

pub fn same_str(a: &str, b: &str) -> (r: bool)
    ensures
        r == (a@ == b@),
{
    if a.unicode_len() != b.unicode_len() {
        return false;
    }
    assert(a@.subrange(0, b@.len() as int) =~= a@);
    starts_with(a, b)
}

impl UrlStore {
    /// The records, in creation order.
    pub closed spec fn records(&self) -> Seq<UrlView> {
        self.records@.map_values(|u: Url| u@)
    }

    /// The identifier that the next insertion receives.
    pub closed spec fn next_id(&self) -> i64 {
        self.next_id
    }

    pub closed spec fn wf(&self) -> bool {
        &&& 1 <= self.next_id
        &&& forall|i: int|
            0 <= i < self.records@.len() ==> 1 <= #[trigger] self.records@[i].id < self.next_id
        &&& forall|i: int|
            0 <= i < self.records@.len() ==> code_fits(#[trigger] self.records@[i]@)
        &&& forall|i: int, j: int|
            0 <= i < j < self.records@.len() ==> #[trigger] self.records@[i].id
                != #[trigger] self.records@[j].id
        &&& forall|i: int, j: int|
            0 <= i < j < self.records@.len() ==> created_before(
                #[trigger] self.records@[i]@,
                #[trigger] self.records@[j]@,
            )
    }

    pub fn new() -> (r: UrlStore)
        ensures
            r.wf(),
            r.records() == Seq::<UrlView>::empty(),
            r.next_id() == 1,
    {
        let r = UrlStore { records: Vec::new(), next_id: 1 };
        assert(r.records() =~= Seq::<UrlView>::empty());
        r
    }

    /// Records are kept in creation order.
    pub proof fn lemma_sorted(&self)
        requires
            self.wf(),
        ensures
            forall|i: int, j: int|
                0 <= i < j < self.records().len() ==> created_before(
                    #[trigger] self.records()[i],
                    #[trigger] self.records()[j],
                ),
    {
        assert forall|i: int, j: int| 0 <= i < j < self.records().len() implies created_before(
            #[trigger] self.records()[i],
            #[trigger] self.records()[j],
        ) by {
            assert(created_before(self.records@[i]@, self.records@[j]@));
        }
    }

    /// Identifiers start at one.
    pub proof fn lemma_next_id_positive(&self)
        requires
            self.wf(),
        ensures
            self.next_id() >= 1,
    {
    }

    /// Every record's identifier lies below the next one to be handed out,
    /// and its code is empty or the encoding of its identifier.
    pub proof fn lemma_record_fits(&self, i: int)
        requires
            self.wf(),
            0 <= i < self.records().len(),
        ensures
            code_fits(self.records()[i]),
            1 <= self.records()[i].id < self.next_id(),
    {
        assert(code_fits(self.records@[i]@));
        assert(1 <= self.records@[i].id < self.next_id);
    }

    /// No two records share an identifier.
    pub proof fn lemma_id_unique(&self, i: int, j: int)
        requires
            self.wf(),
            0 <= i < self.records().len(),
            0 <= j < self.records().len(),
            self.records()[i].id == self.records()[j].id,
        ensures
            i == j,
    {
        if i < j {
            assert(self.records@[i].id != self.records@[j].id);
        } else if j < i {
            assert(self.records@[j].id != self.records@[i].id);
        }
    }

    /// A record that carries the code of its identifier is the only record
    /// with that code.
    pub proof fn lemma_code_owner(&self, i: int, k: int)
        requires
            self.wf(),
            0 <= i < self.records().len(),
            0 <= k < self.records().len(),
            i != k,
            self.records()[k].id >= 0,
            self.records()[k].short_code == encode_digits(self.records()[k].id as nat),
        ensures
            self.records()[i].short_code != self.records()[k].short_code,
    {
        let a = self.records()[i];
        let b = self.records()[k];
        crate::base62::lemma_no_leading_zero(b.id);
        assert(code_fits(self.records@[i]@));
        if a.short_code == b.short_code {
            lemma_round_trip(a.id);
            lemma_round_trip(b.id);
            self.lemma_id_unique(i, k);
        }
    }

    /// Adds a record for `target` with an empty code, no clicks, the creation
    /// time `now` and a fresh identifier. `None` once identifiers run out.
    pub fn insert(&mut self, target: &str, now: i64) -> (r: Option<Url>)
        requires
            old(self).wf(),
        ensures
            final(self).wf(),
            old(self).next_id() == i64::MAX ==> r is None && *final(self) == *old(self),
            old(self).next_id() < i64::MAX ==> {
                &&& r matches Some(u)
                &&& u@ == (UrlView {
                    id: old(self).next_id(),
                    short_code: Seq::empty(),
                    original_url: target@,
                    clicks: 0,
                    created_at: now,
                })
                &&& final(self).next_id() == old(self).next_id() + 1
                &&& insert_position(old(self).records(), now) <= old(self).records().len()
                &&& final(self).records() == old(self).records().insert(
                    insert_position(old(self).records(), now) as int,
                    u@,
                )
            },
    {
        if self.next_id == i64::MAX {
            return None;
        }
        let id = self.next_id;
        let mut k: usize = 0;
        assert(self.records().subrange(0, self.records().len() as int) =~= self.records());
        while k < self.records.len() && self.records[k].created_at <= now
            invariant
                self.wf(),
                self.next_id == id,
                k <= self.records@.len(),
                insert_position(self.records(), now) == k + insert_position(
                    self.records().subrange(k as int, self.records().len() as int),
                    now,
                ),
                forall|i: int| 0 <= i < k ==> #[trigger] self.records@[i].created_at <= now,
            decreases self.records@.len() - k,
        {
            assert(self.records().subrange(k as int, self.records().len() as int).drop_first()
                =~= self.records().subrange(k + 1, self.records().len() as int));
            k = k + 1;
        }
        let rec = Url {
            id,
            short_code: String::new(),
            original_url: target.to_owned(),
            clicks: 0,
            created_at: now,
        };
        let out = rec.duplicate();
        let ghost before = self.records@;
        self.records.insert(k, rec);
        self.next_id = id + 1;
        proof {
            assert(self.records@ == before.insert(k as int, self.records@[k as int]));
            assert forall|i: int, j: int| 0 <= i < j < self.records@.len() implies created_before(
                #[trigger] self.records@[i]@,
                #[trigger] self.records@[j]@,
            ) by {
                if j < k {
                } else if i < k && j == k {
                    assert(self.records@[i] == before[i]);
                } else if i < k {
                    assert(self.records@[j] == before[j - 1]);
                } else if i == k {
                    assert(self.records@[j] == before[j - 1]);
                    assert(created_before(before[k as int]@, before[j - 1]@) || j - 1 == k);
                } else {
                    assert(self.records@[i] == before[i - 1]);
                    assert(self.records@[j] == before[j - 1]);
                }
            }
            assert forall|i: int, j: int|
                0 <= i < j < self.records@.len() implies #[trigger] self.records@[i].id
                != #[trigger] self.records@[j].id by {
                if j < k {
                } else if j == k {
                    assert(self.records@[i] == before[i]);
                } else if i < k {
                    assert(self.records@[j] == before[j - 1]);
                } else if i == k {
                    assert(self.records@[j] == before[j - 1]);
                } else {
                    assert(self.records@[i] == before[i - 1]);
                    assert(self.records@[j] == before[j - 1]);
                }
            }
            assert forall|i: int| 0 <= i < self.records@.len() implies code_fits(
                #[trigger] self.records@[i]@,
            ) && 1 <= self.records@[i].id < self.next_id by {
                if i > k {
                    assert(self.records@[i] == before[i - 1]);
                }
            }
            assert(self.records() =~= before.map_values(|u: Url| u@).insert(k as int, out@));
        }
        Some(out)
    }

    /// Sets the code of the record with identifier `id`, and returns that
    /// record; `None` when no record has that identifier.
    pub fn assign_code(&mut self, id: i64, code: &str) -> (r: Option<Url>)
        requires
            old(self).wf(),
            id >= 0,
            code@ == encode_digits(id as nat),
        ensures
            final(self).wf(),
            final(self).next_id() == old(self).next_id(),
            final(self).records() == with_code(old(self).records(), id, code@),
            opt_view(r) == find_id(final(self).records(), id),
    {
        let ghost before = self.records();
        let mut k: usize = 0;
        while k < self.records.len()
            invariant
                self.wf(),
                self.records() == before,
                before == old(self).records(),
                self.next_id == old(self).next_id,
                id >= 0,
                code@ == encode_digits(id as nat),
                k <= self.records@.len(),
                forall|i: int| 0 <= i < k ==> #[trigger] self.records@[i].id != id,
            decreases self.records@.len() - k,
        {
            if self.records[k].id == id {
                let old_rec = self.records[k].duplicate();
                let rec = Url {
                    id,
                    short_code: code.to_owned(),
                    original_url: old_rec.original_url,
                    clicks: old_rec.clicks,
                    created_at: old_rec.created_at,
                };
                let out = rec.duplicate();
                let ghost prev = self.records@;
                self.records.set(k, rec);
                proof {
                    assert forall|i: int| 0 <= i < prev.len() && i != k implies prev[i].id != id by {
                        assert(prev[i].id != prev[k as int].id || i == k);
                    }
                    assert(self.records@ == prev.update(k as int, self.records@[k as int]));
                    assert(self.records@[k as int]@ == out@);
                    assert(out@.short_code == code@);
                    assert(out@.id == id);
                    assert(self.records@[k as int].id == prev[k as int].id);
                    assert forall|i: int| 0 <= i < self.records@.len() implies code_fits(
                        #[trigger] self.records@[i]@,
                    ) && 1 <= self.records@[i].id < self.next_id by {
                        if i != k {
                            assert(self.records@[i] == prev[i]);
                            assert(code_fits(prev[i]@));
                            assert(1 <= prev[i].id < self.next_id);
                        } else {
                            assert(1 <= prev[i].id < self.next_id);
                            assert(code_fits(out@));
                        }
                    }
                    assert forall|i: int, j: int|
                        0 <= i < j < self.records@.len() implies #[trigger] self.records@[i].id
                        != #[trigger] self.records@[j].id && created_before(
                        self.records@[i]@,
                        self.records@[j]@,
                    ) by {
                        assert(created_before(prev[i]@, prev[j]@));
                        assert(prev[i].id != prev[j].id);
                    }
                    assert forall|i: int| 0 <= i < self.records@.len() implies #[trigger] self.records()[i]
                        == with_code(before, id, code@)[i] by {
                        if i != k {
                            assert(self.records@[i] == prev[i]);
                            assert(before[i] == prev[i]@);
                        }
                    }
                    assert(self.records() =~= with_code(before, id, code@));
                    let c = choose|j: int|
                        0 <= j < self.records().len() && self.records()[j].id == id;
                    assert(self.records()[k as int].id == id);
                    assert(self.records@[c].id == self.records@[k as int].id);
                }
                return Some(out);
            }
            k = k + 1;
        }
        assert(with_code(before, id, code@) =~= before);
        None
    }

    /// The first record, in creation order, whose code is `code`.
    pub fn get_by_code(&self, code: &str) -> (r: Option<Url>)
        requires
            self.wf(),
        ensures
            opt_view(r) == find_code(self.records(), code@),
    {
        let mut k: usize = 0;
        while k < self.records.len()
            invariant
                k <= self.records@.len(),
                forall|i: int| 0 <= i < k ==> #[trigger] self.records@[i].short_code@ != code@,
            decreases self.records@.len() - k,
        {
            if same_str(self.records[k].short_code.as_str(), code) {
                proof {
                    lemma_first_unique(self.records(), code@, k as int);
                }
                return Some(self.records[k].duplicate());
            }
            k = k + 1;
        }
        assert forall|j: int| !is_first_with_code(self.records(), code@, j) by {
            if 0 <= j < self.records@.len() {
                assert(self.records@[j].short_code@ != code@);
            }
        }
        None
    }

    /// The record with identifier `id`.
    pub fn get_by_id(&self, id: i64) -> (r: Option<Url>)
        requires
            self.wf(),
        ensures
            opt_view(r) == find_id(self.records(), id),
    {
        let mut k: usize = 0;
        while k < self.records.len()
            invariant
                self.wf(),
                k <= self.records@.len(),
                forall|i: int| 0 <= i < k ==> #[trigger] self.records@[i].id != id,
            decreases self.records@.len() - k,
        {
            if self.records[k].id == id {
                proof {
                    assert(self.records()[k as int].id == id);
                    let c = choose|j: int|
                        0 <= j < self.records().len() && self.records()[j].id == id;
                    assert(self.records@[c].id == self.records@[k as int].id);
                }
                return Some(self.records[k].duplicate());
            }
            k = k + 1;
        }
        None
    }

    /// Number of records.
    pub fn count(&self) -> (r: i64)
        requires
            self.wf(),
        ensures
            r == self.records().len(),
    {
        proof {
            self.lemma_len_bound();
        }
        self.records.len() as i64
    }

    /// Ids are distinct and below `next_id`, so there are fewer records than
    /// `i64::MAX`.
    proof fn lemma_len_bound(&self)
        requires
            self.wf(),
        ensures
            self.records@.len() < i64::MAX,
    {
        let ids = Set::new(|x: int| 1 <= x < self.next_id);
        let m = self.records@.map_values(|u: Url| u.id as int);
        let got = m.to_set();
        assert forall|x: int| got.contains(x) implies ids.contains(x) by {
            assert(m.contains(x));
            let k = choose|k: int| 0 <= k < m.len() && #[trigger] m[k] == x;
            assert(1 <= self.records@[k].id < self.next_id);
        }
        vstd::set_lib::lemma_int_range(1, self.next_id as int);
        assert(ids =~= vstd::set_lib::set_int_range(1, self.next_id as int));
        vstd::set_lib::lemma_len_subset(got, ids);
        assert forall|i: int, j: int| 0 <= i < j < m.len() implies m[i] != m[j] by {
            assert(self.records@[i].id != self.records@[j].id);
        }
        assert(m.no_duplicates());
        m.unique_seq_to_set();
    }
    /// Adds one click to every record whose code is `code`; a code that no
    /// record has changes nothing. Returns `false`, and changes nothing, when
    /// a matching counter is already at its largest value.
    pub fn increment_clicks(&mut self, code: &str) -> (r: bool)
        requires
            old(self).wf(),
        ensures
            final(self).wf(),
            final(self).next_id() == old(self).next_id(),
            r == can_click(old(self).records(), code@),
            r ==> final(self).records() == clicked(old(self).records(), code@),
            !r ==> final(self).records() == old(self).records(),
    {
        let mut k: usize = 0;
        while k < self.records.len()
            invariant
                k <= self.records@.len(),
                self.wf(),
                forall|i: int|
                    0 <= i < k && #[trigger] self.records@[i].short_code@ == code@
                        ==> self.records@[i].clicks < i64::MAX,
            decreases self.records@.len() - k,
        {
            if self.records[k].clicks == i64::MAX && same_str(
                self.records[k].short_code.as_str(),
                code,
            ) {
                assert(self.records()[k as int].short_code == code@);
                return false;
            }
            k = k + 1;
        }
        let ghost before = self.records@;
        let ghost target = clicked(self.records(), code@);
        let mut k: usize = 0;
        while k < self.records.len()
            invariant
                k <= self.records@.len(),
                self.records@.len() == before.len(),
                self.next_id == old(self).next_id,
                old(self).records@ == before,
                old(self).wf(),
                target == clicked(old(self).records(), code@),
                can_click(old(self).records(), code@),
                forall|i: int| 0 <= i < k ==> #[trigger] self.records@[i]@ == target[i],
                forall|i: int| k <= i < before.len() ==> #[trigger] self.records@[i] == before[i],
            decreases self.records@.len() - k,
        {
            if same_str(self.records[k].short_code.as_str(), code) {
                let cur = self.records[k].duplicate();
                assert(old(self).records()[k as int] == cur@);
                let rec = Url {
                    id: cur.id,
                    short_code: cur.short_code,
                    original_url: cur.original_url,
                    clicks: cur.clicks + 1,
                    created_at: cur.created_at,
                };
                self.records.set(k, rec);
            }
            k = k + 1;
        }
        proof {
            assert forall|i: int| 0 <= i < self.records@.len() implies #[trigger] self.records@[i].id
                == before[i].id && self.records@[i].created_at == before[i].created_at
                && self.records@[i].short_code@ == before[i].short_code@ by {
                assert(self.records@[i]@ == target[i]);
                assert(old(self).records()[i] == before[i]@);
            }
            assert forall|i: int| 0 <= i < self.records@.len() implies code_fits(
                #[trigger] self.records@[i]@,
            ) && 1 <= self.records@[i].id < self.next_id by {
                assert(self.records@[i].id == before[i].id);
                assert(code_fits(before[i]@));
            }
            assert forall|i: int, j: int|
                0 <= i < j < self.records@.len() implies #[trigger] self.records@[i].id
                != #[trigger] self.records@[j].id && created_before(
                self.records@[i]@,
                self.records@[j]@,
            ) by {
                assert(self.records@[i].id == before[i].id);
                assert(self.records@[j].id == before[j].id);
                assert(created_before(before[i]@, before[j]@));
                assert(before[i].id != before[j].id);
            }
            assert(self.records() =~= target);
        }
        true
    }

    /// At most `limit` records, newest first, after skipping `offset` of them.
    pub fn list(&self, limit: i64, offset: i64) -> (r: Vec<Url>)
        requires
            self.wf(),
            limit >= 0,
            offset >= 0,
        ensures
            r@.map_values(|u: Url| u@) == page(
                newest_first(self.records()),
                limit as int,
                offset as int,
            ),
    {
        let n = self.records.len();
        let lo: usize = if (offset as u64) < (n as u64) {
            offset as usize
        } else {
            n
        };
        let hi: usize = if (limit as u64) < ((n - lo) as u64) {
            lo + limit as usize
        } else {
            n
        };
        let ghost want = page(newest_first(self.records()), limit as int, offset as int);
        assert(want =~= newest_first(self.records()).subrange(lo as int, hi as int));
        let mut out: Vec<Url> = Vec::new();
        let mut i: usize = lo;
        while i < hi
            invariant
                lo <= i <= hi <= n,
                n == self.records@.len(),
                want == newest_first(self.records()).subrange(lo as int, hi as int),
                out@.map_values(|u: Url| u@) == want.take(i - lo),
            decreases hi - i,
        {
            let rec = self.records[n - 1 - i].duplicate();
            assert(want[i - lo] == self.records()[n - 1 - i]);
            let ghost prev = out@.map_values(|u: Url| u@);
            out.push(rec);
            assert(out@.map_values(|u: Url| u@) =~= prev.push(rec@));
            i = i + 1;
            assert(out@.map_values(|u: Url| u@) =~= want.take(i - lo));
        }
        assert(want.take(hi - lo) =~= want);
        out
    }

    /// Removes every record whose code is `code`; says whether any was removed.
    pub fn delete(&mut self, code: &str) -> (r: bool)
        requires
            old(self).wf(),
        ensures
            final(self).wf(),
            final(self).next_id() == old(self).next_id(),
            final(self).records() == without_code(old(self).records(), code@),
            r == exists|i: int|
                0 <= i < old(self).records().len() && #[trigger] old(self).records()[i].short_code
                    == code@,
    {
        let ghost src = self.records@;
        let mut kept: Vec<Url> = Vec::new();
        let ghost mut idx: Seq<int> = Seq::empty();
        let mut removed = false;
        let mut k: usize = 0;
        while k < self.records.len()
            invariant
                k <= self.records@.len(),
                self.records@ == src,
                self.wf(),
                idx.len() == kept@.len(),
                forall|j: int| 0 <= j < idx.len() ==> 0 <= #[trigger] idx[j] < k,
                forall|j: int, l: int| 0 <= j < l < idx.len() ==> #[trigger] idx[j] < #[trigger] idx[l],
                forall|j: int| 0 <= j < idx.len() ==> #[trigger] kept@[j]@ == src[idx[j]]@,
                kept@.map_values(|u: Url| u@) == without_code(self.records().take(k as int), code@),
                removed == exists|i: int| 0 <= i < k && #[trigger] self.records()[i].short_code == code@,
            decreases self.records@.len() - k,
        {
            assert(self.records().take(k + 1).drop_last() =~= self.records().take(k as int));
            if same_str(self.records[k].short_code.as_str(), code) {
                assert(self.records()[k as int].short_code == code@);
                removed = true;
            } else {
                assert(self.records()[k as int].short_code != code@);
                let rec = self.records[k].duplicate();
                kept.push(rec);
                proof {
                    idx = idx.push(k as int);
                }
                assert(kept@.map_values(|u: Url| u@) =~= without_code(
                    self.records().take(k as int),
                    code@,
                ).push(self.records()[k as int]));
            }
            k = k + 1;
        }
        assert(self.records().take(k as int) =~= self.records());
        self.records = kept;
        proof {
            assert forall|j: int| 0 <= j < self.records@.len() implies code_fits(
                #[trigger] self.records@[j]@,
            ) && 1 <= self.records@[j].id < self.next_id by {
                assert(self.records@[j]@ == src[idx[j]]@);
                assert(0 <= idx[j] < src.len());
                assert(code_fits(src[idx[j]]@));
            }
            assert forall|j: int| 0 <= j < self.records@.len() implies 1
                <= #[trigger] self.records@[j].id < self.next_id by {
                assert(code_fits(self.records@[j]@));
            }
            assert forall|j: int, l: int| 0 <= j < l < self.records@.len() implies created_before(
                #[trigger] self.records@[j]@,
                #[trigger] self.records@[l]@,
            ) by {
                assert(self.records@[j]@ == src[idx[j]]@);
                assert(self.records@[l]@ == src[idx[l]]@);
                assert(0 <= idx[j] < idx[l] < src.len());
                assert(created_before(src[idx[j]]@, src[idx[l]]@));
            }
            assert forall|j: int, l: int|
                0 <= j < l < self.records@.len() implies #[trigger] self.records@[j].id
                != #[trigger] self.records@[l].id by {
                assert(self.records@[j]@ == src[idx[j]]@);
                assert(self.records@[l]@ == src[idx[l]]@);
                assert(0 <= idx[j] < idx[l] < src.len());
                assert(src[idx[j]].id != src[idx[l]].id);
            }
            assert(self.wf());
        }
        removed
    }
}

} // verus!
