use crate::models::{
    GetJRangeData, GraphQLError, GraphQLResponse, JDay, JRangeDayData, User, UserBasicInfoData,
    WorkoutData,
};
use crate::text::{decimal, join, push_decimal};
use crate::utils::{parse_stamp, stamp_date, Date};
use vstd::prelude::*;

verus! {

/// The number of dates that one listing call asks of the service.
pub const PAGE_SIZE: u32 = 32;

/// Whether `d` lies between the two bounds, each of them included where it is
/// given.
pub open spec fn within(d: Date, oldest: Option<Date>, latest: Option<Date>) -> bool {
    &&& (oldest matches Some(o) ==> o.key() <= d.key())
    &&& (latest matches Some(l) ==> d.key() <= l.key())
}

/// The dates of `page` that lie within the bounds, in the order of the page.
pub open spec fn kept(page: Seq<Date>, oldest: Option<Date>, latest: Option<Date>) -> Seq<Date> {
    page.filter(|d: Date| within(d, oldest, latest))
}

/// The earliest date of a page that holds at least one.
pub open spec fn earliest(page: Seq<Date>) -> Date
    recommends
        page.len() > 0,
    decreases page.len(),
{
    if page.len() <= 1 {
        page[0]
    } else {
        let rest = earliest(page.drop_last());
        if page.last().key() < rest.key() {
            page.last()
        } else {
            rest
        }
    }
}

/// Whether the scan asks for another page after one whose earliest date is
/// `page_earliest`, with `found` dates gathered so far.
pub open spec fn scan_goes_on(
    found: nat,
    count: u32,
    oldest: Option<Date>,
    page_earliest: Date,
) -> bool {
    &&& !(count > 0 && found >= count)
    &&& !(oldest matches Some(o) && page_earliest.key() < o.key())
}

/// Whether each date of `s` comes before the next.
pub open spec fn ascending(s: Seq<Date>) -> bool {
    forall|i: int, j: int| 0 <= i < j < s.len() ==> s[i].key() < s[j].key()
}

/// Whether `out` holds the `count` most recent of the dates in `found` (every
/// one of them where `count` is 0, or where there are no more than `count`),
/// each date once and the earliest first.
pub open spec fn most_recent(found: Seq<Date>, count: u32, out: Seq<Date>) -> bool {
    &&& ascending(out)
    &&& count > 0 ==> out.len() <= count
    &&& forall|d: Date| #[trigger] out.contains(d) ==> found.contains(d)
    &&& forall|d: Date| #[trigger]
        found.contains(d) && !out.contains(d) ==> {
            &&& count > 0
            &&& out.len() == count
            &&& d.key() < out[0].key()
        }
}

/// What a finished scan hands out: the most recent dates, the earliest of them
/// first, or the latest first where `reverse` is set.
pub open spec fn resolved(found: Seq<Date>, count: u32, reverse: bool, out: Seq<Date>) -> bool {
    most_recent(
        found,
        count,
        if reverse {
            out.reverse()
        } else {
            out
        },
    )
}

/// A backward scan over the dates that the service lists, one page at a time.
///
/// The caller asks the service for the page that ends at `cursor`, hands it to
/// `absorb`, and repeats this while `absorb` returns `true`; `finish` then gives
/// the dates that were asked for.
#[derive(Debug, Clone)]
pub struct DateScan {
    pub latest: Option<Date>,
    pub oldest: Option<Date>,
    pub count: u32,
    pub cursor: Date,
    pub found: Vec<Date>,
}

/// Puts `d` in its place in a vector of ascending dates, unless it is there.
fn insert_ascending(dates: &mut Vec<Date>, d: Date)
    requires
        ascending(old(dates)@),
    ensures
        ascending(final(dates)@),
        forall|e: Date| #[trigger]
            final(dates)@.contains(e) <==> (old(dates)@.contains(e) || e == d),
{
    let mut p: usize = 0;
    while p < dates.len() && dates[p].is_before(&d)
        invariant
            p <= dates@.len(),
            dates@ == old(dates)@,
            forall|k: int| 0 <= k < p ==> dates@[k].key() < d.key(),
        decreases dates@.len() - p,
    {
        p += 1;
    }
    if p < dates.len() && dates[p] == d {
        assert(dates@.contains(d));
        return ;
    }
    let ghost before = dates@;
    dates.insert(p, d);
    proof {
        let after = dates@;
        assert(after == before.insert(p as int, d));
        assert(p < before.len() ==> d.key() < before[p as int].key()) by {
            if p < before.len() && before[p as int].key() == d.key() {
                crate::utils::key_is_injective(before[p as int], d);
            }
        }
        assert forall|i: int, j: int| 0 <= i < j < after.len() implies after[i].key()
            < after[j].key() by {
            if i < p && j > p {
                assert(after[j] == before[j - 1]);
            }
        }
        assert forall|e: Date| #[trigger] after.contains(e) <==> (before.contains(e) || e == d) by {
            if after.contains(e) {
                let k = choose|k: int| 0 <= k < after.len() && after[k] == e;
                if k < p {
                    assert(before[k] == e);
                } else if k > p {
                    assert(before[k - 1] == e);
                }
            }
            if before.contains(e) {
                let k = choose|k: int| 0 <= k < before.len() && before[k] == e;
                if k < p {
                    assert(after[k] == e);
                } else {
                    assert(after[k + 1] == e);
                }
            }
            if e == d {
                assert(after[p as int] == e);
            }
        }
    }
}

fn date_within(d: &Date, oldest: &Option<Date>, latest: &Option<Date>) -> (b: bool)
    ensures
        b == within(*d, *oldest, *latest),
{
    let after_oldest = match oldest {
        Some(o) => !d.is_before(o),
        None => true,
    };
    let before_latest = match latest {
        Some(l) => !l.is_before(d),
        None => true,
    };
    after_oldest && before_latest
}

impl DateScan {
    /// Whether every date found so far lies within the bounds of the scan. A
    /// scan begins so and stays so.
    pub open spec fn bounded(&self) -> bool {
        forall|k: int|
            0 <= k < self.found@.len() ==> within(#[trigger] self.found@[k], self.oldest, self.latest)
    }

    /// A scan for the `count` most recent dates (all of them where `count` is 0)
    /// between `oldest` and `latest`. It starts at `latest`, or at `today` where
    /// no latest date is given.
    pub fn begin(latest: Option<Date>, oldest: Option<Date>, count: u32, today: Date) -> (scan:
        DateScan)
        ensures
            scan.latest == latest,
            scan.oldest == oldest,
            scan.count == count,
            scan.cursor == (match latest {
                Some(l) => l,
                None => today,
            }),
            scan.found@ == Seq::<Date>::empty(),
            scan.bounded(),
    {
        let cursor = match latest {
            Some(l) => l,
            None => today,
        };
        DateScan { latest, oldest, count, cursor, found: Vec::new() }
    }

    /// Takes in the page that the service gave for `cursor`, and says whether
    /// another page is to be asked for.
    ///
    /// An empty page ends the scan and changes nothing. Of any other page the
    /// dates within the bounds are added to `found`. The scan then ends if
    /// enough dates are gathered, or if the page reached back beyond `oldest`;
    /// else the cursor moves to the earliest date of the page.
    pub fn absorb(&mut self, page: &Vec<Date>) -> (more: bool)
        ensures
            final(self).latest == old(self).latest,
            final(self).oldest == old(self).oldest,
            final(self).count == old(self).count,
            page@.len() == 0 ==> {
                &&& !more
                &&& final(self).found@ == old(self).found@
                &&& final(self).cursor == old(self).cursor
            },
            page@.len() > 0 ==> {
                &&& final(self).found@ == old(self).found@ + kept(
                    page@,
                    old(self).oldest,
                    old(self).latest,
                )
                &&& more == scan_goes_on(
                    final(self).found@.len(),
                    old(self).count,
                    old(self).oldest,
                    earliest(page@),
                )
                &&& final(self).cursor == if more {
                    earliest(page@)
                } else {
                    old(self).cursor
                }
            },
            old(self).bounded() ==> final(self).bounded(),
    {
        if page.len() == 0 {
            return false;
        }
        let ghost pred = |d: Date| within(d, self.oldest, self.latest);
        let ghost before = self.found@;
        let mut first: Date = page[0];
        let mut i: usize = 0;
        while i < page.len()
            invariant
                0 <= i <= page@.len(),
                page@.len() > 0,
                self.latest == old(self).latest,
                self.oldest == old(self).oldest,
                self.count == old(self).count,
                self.cursor == old(self).cursor,
                before == old(self).found@,
                pred == (|d: Date| within(d, self.oldest, self.latest)),
                self.found@ == before + page@.subrange(0, i as int).filter(pred),
                i == 0 ==> first == page@[0],
                i > 0 ==> first == earliest(page@.subrange(0, i as int)),
            decreases page@.len() - i,
        {
            let d = page[i];
            let ghost head = page@.subrange(0, i as int);
            let ghost next = page@.subrange(0, i as int + 1);
            proof {
                assert(next.drop_last() =~= head);
                assert(next.last() == d);
                assert(next =~= head.push(d));
                head.lemma_filter_push(d, pred);
            }
            if date_within(&d, &self.oldest, &self.latest) {
                self.found.push(d);
            }
            assert(self.found@ =~= before + next.filter(pred));
            if i > 0 && d.is_before(&first) {
                first = d;
            }
            i += 1;
        }
        assert(page@.subrange(0, i as int) =~= page@);
        proof {
            if old(self).bounded() {
                assert forall|k: int| 0 <= k < self.found@.len() implies within(
                    #[trigger] self.found@[k],
                    self.oldest,
                    self.latest,
                ) by {
                    if k >= before.len() {
                        page@.lemma_filter_pred(pred, k - before.len());
                    } else {
                        assert(self.found@[k] == old(self).found@[k]);
                    }
                }
            }
        }
        let enough = self.count > 0 && self.found.len() >= self.count as usize;
        let beyond = match self.oldest {
            Some(o) => first.is_before(&o),
            None => false,
        };
        if enough || beyond {
            false
        } else {
            self.cursor = first;
            true
        }
    }

    /// The dates that the scan was begun for, out of those it found: each one
    /// once, the earliest first, no more than the `count` most recent; and the
    /// latest first where `reverse` is set.
    pub fn finish(&self, reverse: bool) -> (out: Vec<Date>)
        ensures
            resolved(self.found@, self.count, reverse, out@),
            self.bounded() ==> forall|k: int|
                0 <= k < out@.len() ==> within(#[trigger] out@[k], self.oldest, self.latest),
    {
        let mut uniq: Vec<Date> = Vec::new();
        let mut i: usize = 0;
        while i < self.found.len()
            invariant
                i <= self.found@.len(),
                ascending(uniq@),
                uniq@.len() <= i,
                forall|e: Date| #[trigger]
                    uniq@.contains(e) <==> self.found@.subrange(0, i as int).contains(e),
            decreases self.found@.len() - i,
        {
            let ghost head = self.found@.subrange(0, i as int);
            let ghost next = self.found@.subrange(0, i as int + 1);
            let ghost prior = uniq@;
            let d = self.found[i];
            insert_ascending(&mut uniq, d);
            proof {
                assert(next =~= head.push(d));
                assert forall|e: Date| #[trigger]
                    uniq@.contains(e) <==> next.contains(e) by {
                    if next.contains(e) {
                        let k = choose|k: int| 0 <= k < next.len() && next[k] == e;
                        if k < i {
                            assert(head[k] == e);
                        }
                    }
                    if head.contains(e) {
                        let k = choose|k: int| 0 <= k < head.len() && head[k] == e;
                        assert(next[k] == e);
                    }
                    if e == d {
                        assert(next[i as int] == e);
                    }
                }
                assert(uniq@.len() <= i + 1) by {
                    assert forall|e: Date| #[trigger] uniq@.contains(e) implies prior.push(
                        d,
                    ).contains(e) by {
                        if e == d {
                            assert(prior.push(d)[prior.len() as int] == e);
                        } else {
                            let k = choose|k: int| 0 <= k < prior.len() && prior[k] == e;
                            assert(prior.push(d)[k] == e);
                        }
                    }
                    lemma_ascending_within(prior.push(d), uniq@);
                }
            }
            i += 1;
        }
        assert(self.found@.subrange(0, i as int) =~= self.found@);
        let n = uniq.len();
        let skip: usize = if self.count > 0 && n > self.count as usize {
            n - self.count as usize
        } else {
            0
        };
        let ghost asc = uniq@.subrange(skip as int, n as int);
        proof {
            assert forall|d: Date| #[trigger] asc.contains(d) implies self.found@.contains(d) by {
                let k = choose|k: int| 0 <= k < asc.len() && asc[k] == d;
                assert(uniq@[skip + k] == d);
                assert(uniq@.contains(d));
            }
            assert forall|d: Date| #[trigger]
                self.found@.contains(d) && !asc.contains(d) implies {
                &&& self.count > 0
                &&& asc.len() == self.count
                &&& d.key() < asc[0].key()
            } by {
                assert(uniq@.contains(d));
                let k = choose|k: int| 0 <= k < uniq@.len() && uniq@[k] == d;
                if k >= skip {
                    assert(asc[k - skip] == d);
                }
            }
            assert(most_recent(self.found@, self.count, asc));
        }
        let mut out: Vec<Date> = Vec::new();
        let mut j: usize = 0;
        while j < n - skip
            invariant
                skip <= n,
                n == uniq@.len(),
                j <= n - skip,
                out@.len() == j,
                asc == uniq@.subrange(skip as int, n as int),
                forall|k: int|
                    0 <= k < j ==> out@[k] == (if reverse {
                        asc[asc.len() - 1 - k]
                    } else {
                        asc[k]
                    }),
            decreases n - skip - j,
        {
            let d = if reverse {
                uniq[n - 1 - j]
            } else {
                uniq[skip + j]
            };
            out.push(d);
            j += 1;
        }
        proof {
            if reverse {
                assert(out@.reverse() =~= asc);
            } else {
                assert(out@ =~= asc);
            }
            if self.bounded() {
                assert forall|k: int| 0 <= k < out@.len() implies within(
                    #[trigger] out@[k],
                    self.oldest,
                    self.latest,
                ) by {
                    let m = if reverse {
                        asc.len() - 1 - k
                    } else {
                        k
                    };
                    assert(out@[k] == asc[m]);
                    assert(asc.contains(asc[m]));
                    let at = choose|at: int|
                        0 <= at < self.found@.len() && self.found@[at] == out@[k];
                }
            }
        }
        out
    }
}

/// Ascending dates that all occur among `n` others are at most `n`.
proof fn lemma_ascending_within(pool: Seq<Date>, s: Seq<Date>)
    requires
        ascending(s),
        forall|e: Date| #[trigger] s.contains(e) ==> pool.contains(e),
    ensures
        s.len() <= pool.len(),
{
    assert(s.no_duplicates()) by {
        assert forall|i: int, j: int| 0 <= i < s.len() && 0 <= j < s.len() && i != j implies s[i]
            != s[j] by {
            if i < j {
                assert(s[i].key() < s[j].key());
            } else {
                assert(s[j].key() < s[i].key());
            }
        }
    }
    s.unique_seq_to_set();
    assert(s.to_set().subset_of(pool.to_set())) by {
        assert forall|e: Date| s.to_set().contains(e) implies pool.to_set().contains(e) by {
            assert(s.contains(e));
        }
    }
    vstd::seq_lib::seq_to_set_is_finite(pool);
    vstd::set_lib::lemma_len_subset(s.to_set(), pool.to_set());
    pool.lemma_cardinality_of_set();
}


/// A scan without bounds keeps every date of a page.
pub proof fn kept_without_bounds(page: Seq<Date>)
    ensures
        kept(page, None, None) == page,
    decreases page.len(),
{
    let pred = |d: Date| within(d, None, None);
    if page.len() > 0 {
        kept_without_bounds(page.drop_last());
        assert(page =~= page.drop_last().push(page.last()));
        page.drop_last().lemma_filter_push(page.last(), pred);
    }
    assert(kept(page, None, None) =~= page);
}

/// Two lists of ascending dates that hold the same dates are the same list.
proof fn lemma_ascending_same(a: Seq<Date>, b: Seq<Date>)
    requires
        ascending(a),
        ascending(b),
        forall|e: Date| #[trigger] a.contains(e) ==> b.contains(e),
        forall|e: Date| #[trigger] b.contains(e) ==> a.contains(e),
    ensures
        a == b,
    decreases a.len(),
{
    lemma_ascending_within(a, b);
    lemma_ascending_within(b, a);
    if a.len() > 0 {
        let n = a.len() as int;
        assert(a.contains(a[n - 1]));
        assert(b.contains(b[n - 1]));
        let i = choose|i: int| 0 <= i < n && b[i] == a[n - 1];
        let j = choose|j: int| 0 <= j < n && a[j] == b[n - 1];
        assert(a[n - 1].key() == b[n - 1].key());
        crate::utils::key_is_injective(a[n - 1], b[n - 1]);
        let a0 = a.drop_last();
        let b0 = b.drop_last();
        assert forall|e: Date| #[trigger] a0.contains(e) implies b0.contains(e) by {
            let k = choose|k: int| 0 <= k < a0.len() && a0[k] == e;
            assert(a[k] == e);
            assert(a.contains(e));
            let m = choose|m: int| 0 <= m < n && b[m] == e;
            assert(m < n - 1) by {
                if m == n - 1 {
                    assert(a[k].key() < a[n - 1].key());
                }
            }
            assert(b0[m] == e);
        }
        assert forall|e: Date| #[trigger] b0.contains(e) implies a0.contains(e) by {
            let k = choose|k: int| 0 <= k < b0.len() && b0[k] == e;
            assert(b[k] == e);
            assert(b.contains(e));
            let m = choose|m: int| 0 <= m < n && a[m] == e;
            assert(m < n - 1) by {
                if m == n - 1 {
                    assert(b[k].key() < b[n - 1].key());
                }
            }
            assert(a0[m] == e);
        }
        lemma_ascending_same(a0, b0);
        assert(a =~= a0.push(a[n - 1]));
        assert(b =~= b0.push(b[n - 1]));
    } else {
        assert(a =~= b);
    }
}

/// Every date of a list of most recent dates occurs in any other such list for
/// the same dates and count.
proof fn lemma_most_recent_within(found: Seq<Date>, count: u32, a: Seq<Date>, b: Seq<Date>)
    requires
        most_recent(found, count, a),
        most_recent(found, count, b),
    ensures
        forall|e: Date| #[trigger] a.contains(e) ==> b.contains(e),
{
    assert forall|d: Date| #[trigger] a.contains(d) implies b.contains(d) by {
        if !b.contains(d) {
            assert(found.contains(d));
            let kd = choose|k: int| 0 <= k < a.len() && a[k] == d;
            if forall|e: Date| #[trigger] b.contains(e) ==> a.contains(e) {
                let longer = seq![d] + b;
                assert forall|i: int, j: int| 0 <= i < j < longer.len() implies longer[i].key()
                    < longer[j].key() by {
                    if i == 0 {
                        assert(b[0].key() <= b[j - 1].key());
                    } else {
                        assert(longer[i] == b[i - 1] && longer[j] == b[j - 1]);
                    }
                }
                assert forall|e: Date| #[trigger] longer.contains(e) implies a.contains(e) by {
                    let k = choose|k: int| 0 <= k < longer.len() && longer[k] == e;
                    if k > 0 {
                        assert(b[k - 1] == e);
                        assert(b.contains(e));
                    }
                }
                lemma_ascending_within(a, longer);
                assert(false);
            } else {
                let e = choose|e: Date| b.contains(e) && !a.contains(e);
                assert(found.contains(e));
                let ke = choose|k: int| 0 <= k < b.len() && b[k] == e;
                assert(e.key() < a[0].key());
                assert(a[0].key() <= a[kd].key());
                assert(b[0].key() <= b[ke].key());
                assert(false);
            }
        }
    }
}

/// For the dates that a scan found and the count that was asked for, there is
/// one list of most recent dates: a scan that saw a date on several pages hands
/// it out once, and two scans that found the same dates hand out the same list.
pub proof fn most_recent_is_unique(found: Seq<Date>, count: u32, a: Seq<Date>, b: Seq<Date>)
    requires
        most_recent(found, count, a),
        most_recent(found, count, b),
    ensures
        a == b,
{
    lemma_most_recent_within(found, count, a, b);
    lemma_most_recent_within(found, count, b, a);
    lemma_ascending_same(a, b);
}

/// What `most_recent` means for the length of the list: with `n` distinct dates
/// found, it holds `n` of them where `count` is 0 or at least `n`, and `count`
/// of them otherwise; and no date occurs in it twice.
pub proof fn most_recent_length(found: Seq<Date>, count: u32, out: Seq<Date>)
    requires
        most_recent(found, count, out),
    ensures
        out.no_duplicates(),
        out.len() == if count > 0 && found.to_set().len() > count {
            count as nat
        } else {
            found.to_set().len()
        },
{
    assert(out.no_duplicates()) by {
        assert forall|i: int, j: int| 0 <= i < out.len() && 0 <= j < out.len() && i != j implies out[i]
            != out[j] by {
            if i < j {
                assert(out[i].key() < out[j].key());
            } else {
                assert(out[j].key() < out[i].key());
            }
        }
    }
    out.unique_seq_to_set();
    vstd::seq_lib::seq_to_set_is_finite(found);
    assert(out.to_set().subset_of(found.to_set())) by {
        assert forall|e: Date| out.to_set().contains(e) implies found.to_set().contains(e) by {
            assert(out.contains(e));
        }
    }
    vstd::set_lib::lemma_len_subset(out.to_set(), found.to_set());
    if found.to_set().subset_of(out.to_set()) {
        vstd::seq_lib::seq_to_set_is_finite(out);
        vstd::set_lib::lemma_len_subset(found.to_set(), out.to_set());
    } else {
        let d = choose|d: Date| found.to_set().contains(d) && !out.to_set().contains(d);
        assert(found.contains(d) && !out.contains(d));
        assert(out.to_set().len() == count);
        assert(out.to_set() != found.to_set());
        out.to_set().lemma_subset_not_in_lt(found.to_set(), d);
    }
}

/// Why a request to the service gave nothing to show.
#[derive(Debug, Clone, PartialEq, Eq)]
pub enum FetchError {
    /// The service answered with error records: their messages, with `; `
    /// between them.
    Remote(String),
    /// The service has no workout for the date.
    NoWorkout,
    /// The answer holds neither a payload nor an error record.
    Unexpected,
    /// The answer to the question for the user holds no payload.
    NoData,
    /// A day of a listing has a stamp that is no date.
    BadStamp,
}

impl FetchError {
    /// The text of the error.
    pub open spec fn text(self) -> Seq<char> {
        match self {
            FetchError::Remote(messages) => messages@,
            FetchError::NoWorkout => "No workout found for the date."@,
            FetchError::Unexpected => "Unexpected response."@,
            FetchError::NoData => "No data in response"@,
            FetchError::BadStamp => "Unreadable date in response."@,
        }
    }

    /// The text of the error.
    pub fn message(&self) -> (s: String)
        ensures
            s@ == self.text(),
    {
        match self {
            FetchError::Remote(messages) => messages.clone(),
            FetchError::NoWorkout => "No workout found for the date.".to_owned(),
            FetchError::Unexpected => "Unexpected response.".to_owned(),
            FetchError::NoData => "No data in response".to_owned(),
            FetchError::BadStamp => "Unreadable date in response.".to_owned(),
        }
    }
}

/// The messages of a run of error records.
pub open spec fn messages(errors: Seq<GraphQLError>) -> Seq<Seq<char>> {
    errors.map_values(|e: GraphQLError| e.message@)
}

/// The messages of the error records as one text, with `; ` between them.
pub open spec fn error_text(errors: Seq<GraphQLError>) -> Seq<char> {
    join(messages(errors), "; "@)
}

/// The messages of the error records as one text, with `; ` between them.
pub fn join_messages(errors: &Vec<GraphQLError>) -> (s: String)
    ensures
        s@ == error_text(errors@),
{
    let mut s = String::new();
    let mut i: usize = 0;
    while i < errors.len()
        invariant
            i <= errors@.len(),
            s@ == join(messages(errors@).subrange(0, i as int), "; "@),
        decreases errors@.len() - i,
    {
        let ghost head = messages(errors@).subrange(0, i as int);
        let ghost next = messages(errors@).subrange(0, i as int + 1);
        assert(next.drop_last() =~= head);
        assert(next.last() == errors@[i as int].message@);
        if i > 0 {
            s.append("; ");
        }
        s.append(errors[i].message.as_str());
        assert(s@ =~= join(next, "; "@));
        i += 1;
    }
    assert(messages(errors@).subrange(0, i as int) =~= messages(errors@));
    s
}

/// What an answer of the service holds: where it has error records, their
/// messages; else its payload; and where it has neither, that is an error too.
pub fn payload<T>(response: GraphQLResponse<T>) -> (res: Result<T, FetchError>)
    ensures
        match response.errors {
            Some(errors) => res matches Err(FetchError::Remote(m)) && m@ == error_text(errors@),
            None => match response.data {
                Some(data) => res == Ok::<T, FetchError>(data),
                None => res == Err::<T, FetchError>(FetchError::Unexpected),
            },
        },
{
    let GraphQLResponse { data, errors } = response;
    match errors {
        Some(errors) => Err(FetchError::Remote(join_messages(&errors))),
        None => match data {
            Some(data) => Ok(data),
            None => Err(FetchError::Unexpected),
        },
    }
}

/// The day of an answer to the question for one day's workout.
pub fn jday_of(response: GraphQLResponse<WorkoutData>) -> (res: Result<JDay, FetchError>)
    ensures
        match response.errors {
            Some(errors) => res matches Err(FetchError::Remote(m)) && m@ == error_text(errors@),
            None => match response.data {
                Some(data) => match data.jday {
                    Some(jday) => res == Ok::<JDay, FetchError>(jday),
                    None => res == Err::<JDay, FetchError>(FetchError::NoWorkout),
                },
                None => res == Err::<JDay, FetchError>(FetchError::Unexpected),
            },
        },
{
    match payload(response) {
        Ok(data) => match data.jday {
            Some(jday) => Ok(jday),
            None => Err(FetchError::NoWorkout),
        },
        Err(e) => Err(e),
    }
}

/// The days of an answer to a listing; none where the answer has a payload
/// without days in it.
pub fn listed_days(response: GraphQLResponse<GetJRangeData>) -> (res: Result<
    Vec<JRangeDayData>,
    FetchError,
>)
    ensures
        match response.errors {
            Some(errors) => res matches Err(FetchError::Remote(m)) && m@ == error_text(errors@),
            None => match response.data {
                Some(data) => match data.jrange {
                    Some(jrange) => match jrange.days {
                        Some(days) => res == Ok::<Vec<JRangeDayData>, FetchError>(days),
                        None => res matches Ok(days) && days@.len() == 0,
                    },
                    None => res matches Ok(days) && days@.len() == 0,
                },
                None => res == Err::<Vec<JRangeDayData>, FetchError>(FetchError::Unexpected),
            },
        },
{
    match payload(response) {
        Ok(data) => match data.jrange {
            Some(jrange) => match jrange.days {
                Some(days) => Ok(days),
                None => Ok(Vec::new()),
            },
            None => Ok(Vec::new()),
        },
        Err(e) => Err(e),
    }
}

/// The user of an answer to the question for the user; where the session has
/// none, a user with weights in kilograms.
pub fn user_of(response: GraphQLResponse<UserBasicInfoData>) -> (res: Result<User, FetchError>)
    ensures
        match response.errors {
            Some(errors) => res matches Err(FetchError::Remote(m)) && m@ == error_text(errors@),
            None => match response.data {
                Some(data) => match data.get_session {
                    Some(session) => res == Ok::<User, FetchError>(session.user),
                    None => res == Ok::<User, FetchError>(User { usekg: Some(1i32) }),
                },
                None => res == Err::<User, FetchError>(FetchError::NoData),
            },
        },
{
    let GraphQLResponse { data, errors } = response;
    match errors {
        Some(errors) => Err(FetchError::Remote(join_messages(&errors))),
        None => match data {
            Some(data) => match data.get_session {
                Some(session) => Ok(session.user),
                None => Ok(User { usekg: Some(1) }),
            },
            None => Err(FetchError::NoData),
        },
    }
}

/// The dates of the days of a listing that have a stamp, in the order of the
/// listing; none where one of the stamps is no date.
pub open spec fn dates_of(days: Seq<JRangeDayData>) -> Option<Seq<Date>>
    decreases days.len(),
{
    if days.len() == 0 {
        Some(Seq::empty())
    } else {
        match dates_of(days.drop_last()) {
            None => None,
            Some(dates) => match days.last().on {
                None => Some(dates),
                Some(on) => match stamp_date(on@) {
                    Some(d) => Some(dates.push(d)),
                    None => None,
                },
            },
        }
    }
}

/// The dates of the days of a listing that have a stamp.
pub fn page_dates(days: &Vec<JRangeDayData>) -> (res: Result<Vec<Date>, FetchError>)
    ensures
        match dates_of(days@) {
            Some(dates) => res matches Ok(page) && page@ == dates,
            None => res == Err::<Vec<Date>, FetchError>(FetchError::BadStamp),
        },
{
    let mut page: Vec<Date> = Vec::new();
    let mut i: usize = 0;
    while i < days.len()
        invariant
            i <= days@.len(),
            dates_of(days@.subrange(0, i as int)) == Some(page@),
        decreases days@.len() - i,
    {
        let ghost next = days@.subrange(0, i as int + 1);
        assert(next.drop_last() =~= days@.subrange(0, i as int));
        match &days[i].on {
            Some(on) => match parse_stamp(on.as_str()) {
                Some(d) => {
                    page.push(d);
                },
                None => {
                    proof {
                        lemma_dates_of_fails(days@, i as int + 1);
                    }
                    return Err(FetchError::BadStamp);
                },
            },
            None => {},
        }
        i += 1;
    }
    assert(days@.subrange(0, i as int) =~= days@);
    Ok(page)
}

/// Where the first `n` days of a listing have a stamp that is no date, the
/// listing has one.
proof fn lemma_dates_of_fails(days: Seq<JRangeDayData>, n: int)
    requires
        0 <= n <= days.len(),
        dates_of(days.subrange(0, n)) is None,
    ensures
        dates_of(days) is None,
    decreases days.len() - n,
{
    if n < days.len() {
        assert(days.subrange(0, n + 1).drop_last() =~= days.subrange(0, n));
        lemma_dates_of_fails(days, n + 1);
    } else {
        assert(days.subrange(0, n) =~= days);
    }
}

/// The question for the workout of the user `uid` on the day `date`.
pub open spec fn jday_query_text(uid: u32, date: Seq<char>) -> Seq<char> {
    "\nquery {\n  jday(uid: "@ + decimal(uid as nat) + ", ymd: \""@ + date
        + "\") {\n    log\n    bw\n    eblocks {\n      eid\n      sets { w r s lb rpe pr est1rm eff int type t d dunit speed force c }\n    }\n    exercises {\n      exercise { id name type }\n    }\n  }\n}\n"@
}

/// The question for the workout of the user `uid` on the day `date`.
pub fn jday_query(uid: u32, date: &str) -> (query: String)
    ensures
        query@ == jday_query_text(uid, date@),
{
    let mut query = "\nquery {\n  jday(uid: ".to_owned();
    push_decimal(&mut query, uid as u64);
    query.append(", ymd: \"");
    query.append(date);
    query.append(
        "\") {\n    log\n    bw\n    eblocks {\n      eid\n      sets { w r s lb rpe pr est1rm eff int type t d dunit speed force c }\n    }\n    exercises {\n      exercise { id name type }\n    }\n  }\n}\n",
    );
    query
}

/// The question for a listing of the days with a workout.
pub fn jrange_query() -> (query: &'static str)
    ensures
        query@
            == "\nquery GetJRange($uid: ID!, $ymd: YMD!, $range: Int!) {\n  jrange(uid: $uid, ymd: $ymd, range: $range) {\n    days {\n      on\n    }\n  }\n}\n"@,
{
    "\nquery GetJRange($uid: ID!, $ymd: YMD!, $range: Int!) {\n  jrange(uid: $uid, ymd: $ymd, range: $range) {\n    days {\n      on\n    }\n  }\n}\n"
}

} // verus!
