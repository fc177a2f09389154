//! The transaction engine: the aligned multi-asset nav matrix with its
//! common calendar, and the day-by-day simulation cursor over it.
//!
//! Money, navs and shares are fixed-point raw values at scale
//! [`crate::utility::FIXED_SCALE`].

use std::io::Write;

use vstd::prelude::*;
use vstd::string::StringExecFns;

pub use crate::date::Weekday;

use crate::data::{DataSlice, Fund, FundSlice, data_ordered};
use crate::date::{Date, days_in_month, day_number_of};
use crate::numeric::{absi, dtr};
use crate::record::{
    ConciseRecord, DetailedRecord, DetailedRecordSlice, MergeEntry, RecordSlice, abs_detailed,
    abs_entries, join2, merge_matches, merge_model, merged_fits, merge_records,
    next_total_investment, next_total_share,
};
use crate::utility::{FIXED_SCALE, lower, search_sorted, sorted};

verus! {

/// Why a transaction operation failed.
#[derive(Clone, Copy, Debug, PartialEq, Eq, Structural)]
pub enum TransactionError {
    /// The iteration has reached the end of its calendar.
    Finished,
    /// A quantity would leave the fixed-point range.
    Overflow,
}

impl TransactionError {
    /// The error's message.
    pub fn message(&self) -> (m: &'static str)
        ensures
            self is Finished ==> m@ == "transaction iteration reaches the end"@,
            self is Overflow ==> m@ == "quantity out of fixed-point range"@,
    {
        match self {
            TransactionError::Finished => "transaction iteration reaches the end",
            TransactionError::Overflow => "quantity out of fixed-point range",
        }
    }
}

/// The day numbers of a fund's records.
pub open spec fn dns_of(s: Seq<FundSlice>) -> Seq<i64> {
    Seq::new(s.len(), |k: int| s[k].date.dn() as i64)
}

/// Every series is date-ordered, non-empty and has positive values.
pub open spec fn funds_ok(funds: Seq<&Fund>) -> bool {
    forall|k: int| 0 <= k < funds.len() ==> fund_ok(#[trigger] funds[k]@)
}

/// The series is date-ordered, non-empty and has positive values.
pub open spec fn fund_ok(f: Seq<FundSlice>) -> bool {
    &&& data_ordered(f)
    &&& f.len() > 0
    &&& forall|i: int| 0 <= i < f.len() ==> (#[trigger] f[i]).value > 0
}

/// The latest first date among the series, scanning left to right and keeping
/// the last date seen on a tie.
pub open spec fn max_first_date(funds: Seq<&Fund>, k: int) -> Date
    decreases k,
{
    if k <= 0 {
        funds[0]@[0].date
    } else {
        let p = max_first_date(funds, k - 1);
        if funds[k]@[0].date.dn() >= p.dn() {
            funds[k]@[0].date
        } else {
            p
        }
    }
}

/// The earliest last date among the series, scanning left to right and
/// keeping the first date seen on a tie.
pub open spec fn min_last_date(funds: Seq<&Fund>, k: int) -> Date
    decreases k,
{
    if k <= 0 {
        funds[0]@.last().date
    } else {
        let p = min_last_date(funds, k - 1);
        if funds[k]@.last().date.dn() < p.dn() {
            funds[k]@.last().date
        } else {
            p
        }
    }
}

/// The day number the restriction window starts at: the given date's, or the
/// latest first date's.
pub open spec fn chosen_start_dn(funds: Seq<&Fund>, start_date: Option<Date>) -> int {
    if start_date is Some {
        start_date->0.dn()
    } else {
        max_first_date(funds, funds.len() - 1).dn()
    }
}

/// The day number the restriction window ends before: the given date's, or
/// one past the earliest last date's.
pub open spec fn chosen_end_dn(funds: Seq<&Fund>, end_date: Option<Date>) -> int {
    if end_date is Some {
        end_date->0.dn()
    } else {
        min_last_date(funds, funds.len() - 1).dn() + 1
    }
}

/// Index of the first record dated `sd_dn` or later.
pub open spec fn win_beg(f: Seq<FundSlice>, sd_dn: int) -> int {
    lower(dns_of(f), sd_dn, 0)
}

/// Index of the first record at or after the window's begin dated `ed_dn` or
/// later.
pub open spec fn win_end(f: Seq<FundSlice>, sd_dn: int, ed_dn: int) -> int {
    let b = win_beg(f, sd_dn);
    let e = lower(dns_of(f), ed_dn, 0);
    if e < b {
        b
    } else {
        e
    }
}

/// All series carry the same dates over the restriction window.
pub open spec fn aligned(funds: Seq<&Fund>, sd_dn: int, ed_dn: int) -> bool {
    forall|k: int|
        0 <= k < funds.len() ==> {
            let f = (#[trigger] funds[k])@;
            let f0 = funds[0]@;
            &&& win_end(f, sd_dn, ed_dn) - win_beg(f, sd_dn) == win_end(f0, sd_dn, ed_dn)
                - win_beg(f0, sd_dn)
            &&& forall|i: int|
                0 <= i < win_end(f, sd_dn, ed_dn) - win_beg(f, sd_dn) ==> #[trigger] f[win_beg(
                    f,
                    sd_dn,
                ) + i].date == f0[win_beg(f0, sd_dn) + i].date
        }
}

/// The aligned snapshot: asset names and codes, the common calendar, and the
/// dense days x assets nav matrix, stored row-major.
#[derive(Debug)]
pub struct Transaction {
    pub names: Vec<String>,
    pub codes: Vec<String>,
    pub date: Vec<Date>,
    pub navs: Vec<i64>,
    pub start_date: Date,
    pub end_date: Date,
}

impl Transaction {
    /// Number of trading days in the calendar.
    pub open spec fn ndays_spec(&self) -> int {
        self.date@.len() as int
    }

    /// Number of assets.
    pub open spec fn nfunds_spec(&self) -> int {
        self.names@.len() as int
    }

    /// The nav of asset `fund` on day `day`.
    pub open spec fn nav_at(&self, day: int, fund: int) -> i64 {
        self.navs@[day * self.nfunds_spec() + fund]
    }

    /// The snapshot invariant: as many codes as names, at least one asset, a
    /// dense positive nav matrix, and an ordered calendar of valid dates.
    pub open spec fn wf(&self) -> bool {
        &&& self.codes@.len() == self.names@.len()
        &&& self.names@.len() > 0
        &&& self.navs@.len() == self.ndays_spec() * self.nfunds_spec()
        &&& forall|p: int| 0 <= p < self.navs@.len() ==> #[trigger] self.navs@[p] > 0
        &&& forall|d: int| 0 <= d < self.date@.len() ==> (#[trigger] self.date@[d]).valid()
        &&& forall|d1: int, d2: int|
            0 <= d1 <= d2 < self.date@.len() ==> #[trigger] self.date@[d1].dn()
                <= #[trigger] self.date@[d2].dn()
    }

    pub fn names(&self) -> (r: &Vec<String>)
        ensures
            r@ == self.names@,
    {
        &self.names
    }

    pub fn codes(&self) -> (r: &Vec<String>)
        ensures
            r@ == self.codes@,
    {
        &self.codes
    }

    pub fn ndays(&self) -> (n: usize)
        ensures
            n == self.ndays_spec(),
    {
        self.date.len()
    }

    pub fn nfunds(&self) -> (n: usize)
        ensures
            n == self.nfunds_spec(),
    {
        self.names.len()
    }

    pub fn start_date(&self) -> (d: Date)
        ensures
            d == self.start_date,
    {
        self.start_date
    }

    pub fn end_date(&self) -> (d: Date)
        ensures
            d == self.end_date,
    {
        self.end_date
    }

    /// The calendar.
    pub fn date(&self) -> (r: &Vec<Date>)
        ensures
            r@ == self.date@,
    {
        &self.date
    }

    /// The nav matrix, row-major: day `i`, asset `k` is at `i * nfunds + k`.
    pub fn navs(&self) -> (r: &Vec<i64>)
        ensures
            r@ == self.navs@,
    {
        &self.navs
    }

    /// The nav of asset `fund` on day `day`.
    pub fn nav(&self, day: usize, fund: usize) -> (v: i64)
        requires
            self.wf(),
            day < self.ndays_spec(),
            fund < self.nfunds_spec(),
        ensures
            v == self.nav_at(day as int, fund as int),
            v > 0,
    {
        let nf = self.names.len();
        let total = self.navs.len();
        proof {
            lemma_flat_index(day as int, fund as int, self.ndays_spec(), self.nfunds_spec());
        }
        self.navs[day * nf + fund]
    }
}

/// A row-major flat index stays within the matrix.
proof fn lemma_flat_index(day: int, fund: int, ndays: int, nfunds: int)
    requires
        0 <= day < ndays,
        0 <= fund < nfunds,
    ensures
        0 <= day * nfunds + fund < ndays * nfunds,
        day * nfunds + fund < usize::MAX || true,
{
    assert(day * nfunds + fund < ndays * nfunds) by (nonlinear_arith)
        requires
            0 <= day < ndays,
            0 <= fund < nfunds,
    ;
    assert(0 <= day * nfunds) by (nonlinear_arith)
        requires
            0 <= day,
            0 <= fund < nfunds,
    ;
}

/// Index of the first key at or after `from` that is `v` or larger, by
/// sorted search over the tail.
fn search_from(dns: &Vec<i64>, from: usize, v: i64) -> (r: usize)
    requires
        sorted(dns@),
        from <= dns@.len(),
    ensures
        r as int == if lower(dns@, v as int, 0) < from {
            from as int
        } else {
            lower(dns@, v as int, 0)
        },
        from <= r <= dns@.len(),
{
    let r0 = search_sorted(dns.as_slice(), v, None);
    proof {
        crate::utility::lemma_search_is_lower(dns@, v, r0 as int);
        crate::utility::lemma_lower_props(dns@, v as int, 0);
    }
    if r0 < from {
        from
    } else {
        r0
    }
}

/// The flat row-major position of day `d`, asset `j`.
pub open spec fn flat(d: int, j: int, nfunds: int) -> int {
    d * nfunds + j
}

/// Flat positions decompose uniquely into day and asset.
proof fn lemma_flat_unique(d1: int, j1: int, d2: int, j2: int, n: int)
    by (nonlinear_arith)
    requires
        0 <= j1 < n,
        0 <= j2 < n,
        0 <= d1,
        0 <= d2,
        d1 * n + j1 == d2 * n + j2,
    ensures
        d1 == d2 && j1 == j2,
{
}

/// The day numbers of a fund's records, sorted by the series' date order.
fn fund_dns(f: &Fund) -> (dns: Vec<i64>)
    requires
        data_ordered(f@),
    ensures
        dns@ == dns_of(f@),
        sorted(dns@),
{
    let n = f.len();
    let mut dns: Vec<i64> = Vec::new();
    let mut k: usize = 0;
    while k < n
        invariant
            data_ordered(f@),
            n == f@.len(),
            k <= n,
            dns@.len() == k,
            forall|l: int| 0 <= l < k ==> #[trigger] dns@[l] == f@[l].date.dn(),
        decreases n - k,
    {
        proof {
            assert(f@[k as int].date_spec().valid());
        }
        dns.push(f.index(k).date.day_number());
        k = k + 1;
    }
    proof {
        assert(dns@ =~= dns_of(f@));
        assert forall|i: int, j: int| 0 <= i <= j < dns@.len() implies dns@[i] <= dns@[j] by {
            assert(f@[i].date_spec().dn() <= f@[j].date_spec().dn());
        }
    }
    dns
}

/// The latest first date among the series.
fn default_start(funds: &Vec<&Fund>) -> (d: Date)
    requires
        funds@.len() > 0,
        funds_ok(funds@),
    ensures
        d == max_first_date(funds@, funds@.len() - 1),
        d.valid(),
{
    let n = funds.len();
    proof {
        assert(fund_ok(funds@[0]@));
        assert(funds@[0]@[0].date_spec().valid());
    }
    let mut cur: Date = funds[0].index(0).date;
    let mut k: usize = 1;
    while k < n
        invariant
            n == funds@.len(),
            funds_ok(funds@),
            1 <= k <= n,
            cur == max_first_date(funds@, k - 1),
            cur.valid(),
        decreases n - k,
    {
        proof {
            assert(fund_ok(funds@[k as int]@));
            assert(funds@[k as int]@[0].date_spec().valid());
        }
        let head = funds[k].index(0).date;
        if head.day_number() >= cur.day_number() {
            cur = head;
        }
        k = k + 1;
    }
    cur
}

/// The earliest last date among the series.
fn default_end_base(funds: &Vec<&Fund>) -> (d: Date)
    requires
        funds@.len() > 0,
        funds_ok(funds@),
    ensures
        d == min_last_date(funds@, funds@.len() - 1),
        d.valid(),
{
    let n = funds.len();
    proof {
        assert(fund_ok(funds@[0]@));
        assert(funds@[0]@[funds@[0]@.len() - 1].date_spec().valid());
    }
    let f0 = funds[0];
    let mut cur: Date = f0.index(f0.len() - 1).date;
    let mut k: usize = 1;
    while k < n
        invariant
            n == funds@.len(),
            funds_ok(funds@),
            1 <= k <= n,
            cur == min_last_date(funds@, k - 1),
            cur.valid(),
        decreases n - k,
    {
        proof {
            assert(fund_ok(funds@[k as int]@));
            assert(funds@[k as int]@[funds@[k as int]@.len() - 1].date_spec().valid());
        }
        let fk = funds[k];
        let last = fk.index(fk.len() - 1).date;
        if last.day_number() < cur.day_number() {
            cur = last;
        }
        k = k + 1;
    }
    cur
}

/// The dense row-major nav matrix of the aligned windows.
fn build_navs(funds: &Vec<&Fund>, begs: &Vec<usize>, ndays: usize) -> (navs: Vec<i64>)
    requires
        funds@.len() > 0,
        funds_ok(funds@),
        begs@.len() == funds@.len(),
        forall|l: int|
            0 <= l < funds@.len() ==> #[trigger] begs@[l] + ndays <= funds@[l]@.len(),
    ensures
        navs@.len() == ndays * funds@.len(),
        forall|d: int, j: int|
            0 <= d < ndays && 0 <= j < funds@.len() ==> #[trigger] navs@[flat(
                d,
                j,
                funds@.len() as int,
            )] == funds@[j]@[begs@[j] + d].value,
{
    let n = funds.len();
    let mut navs: Vec<i64> = Vec::new();
    let mut i: usize = 0;
    while i < ndays
        invariant
            n == funds@.len(),
            funds_ok(funds@),
            begs@.len() == n,
            forall|l: int| 0 <= l < n ==> #[trigger] begs@[l] + ndays <= funds@[l]@.len(),
            i <= ndays,
            navs@.len() == i * n,
            forall|d: int, j: int|
                0 <= d < i && 0 <= j < n ==> #[trigger] navs@[flat(d, j, n as int)]
                    == funds@[j]@[begs@[j] + d].value,
        decreases ndays - i,
    {
        let mut j: usize = 0;
        while j < n
            invariant
                n == funds@.len(),
                funds_ok(funds@),
                begs@.len() == n,
                forall|l: int| 0 <= l < n ==> #[trigger] begs@[l] + ndays <= funds@[l]@.len(),
                i < ndays,
                j <= n,
                navs@.len() == i * n + j,
                forall|d: int, jj: int|
                    0 <= d < i && 0 <= jj < n ==> #[trigger] navs@[flat(d, jj, n as int)]
                        == funds@[jj]@[begs@[jj] + d].value,
                forall|jj: int|
                    0 <= jj < j ==> #[trigger] navs@[flat(i as int, jj, n as int)]
                        == funds@[jj]@[begs@[jj] + i].value,
            decreases n - j,
        {
            proof {
                assert(fund_ok(funds@[j as int]@));
                assert(begs@[j as int] + ndays <= funds@[j as int]@.len());
            }
            let bj = begs[j];
            let fj = funds[j];
            let fl = fj.len();
            proof {
                assert(bj + i < fl);
            }
            navs.push(fj.index(bj + i).value);
            proof {
                assert forall|d: int, jj: int| 0 <= d < i && 0 <= jj < n implies #[trigger] navs@[flat(
                    d,
                    jj,
                    n as int,
                )] == funds@[jj]@[begs@[jj] + d].value by {
                    assert(flat(d, jj, n as int) < i * n + j) by (nonlinear_arith)
                        requires
                            0 <= d < i,
                            0 <= jj < n,
                            0 <= j,
                            flat(d, jj, n as int) == d * n + jj,
                    ;
                }
                assert forall|jj: int| 0 <= jj < j + 1 implies #[trigger] navs@[flat(
                    i as int,
                    jj,
                    n as int,
                )] == funds@[jj]@[begs@[jj] + i].value by {
                    if jj < j {
                        assert(flat(i as int, jj, n as int) < i * n + j);
                    } else {
                        assert(flat(i as int, jj, n as int) == i * n + j);
                    }
                }
            }
            j = j + 1;
        }
        proof {
            assert(navs@.len() == (i + 1) * n) by (nonlinear_arith)
                requires
                    navs@.len() == i * n + n,
            ;
        }
        i = i + 1;
    }
    navs
}

/// Copies of the series' names and codes.
#[verifier::spinoff_prover]
fn clone_names(funds: &Vec<&Fund>) -> (r: (Vec<String>, Vec<String>))
    ensures
        r.0@.len() == funds@.len(),
        r.1@.len() == funds@.len(),
        forall|l: int|
            0 <= l < funds@.len() ==> (#[trigger] r.0@[l])@ == funds@[l].name@ && r.1@[l]@
                == funds@[l].code@,
{
    let n = funds.len();
    let mut names: Vec<String> = Vec::new();
    let mut codes: Vec<String> = Vec::new();
    let mut k: usize = 0;
    while k < n
        invariant
            n == funds@.len(),
            k <= n,
            names@.len() == k,
            codes@.len() == k,
            forall|l: int|
                0 <= l < k ==> (#[trigger] names@[l])@ == funds@[l].name@ && codes@[l]@
                    == funds@[l].code@,
        decreases n - k,
    {
        let f = funds[k];
        let nm = f.name.clone();
        let cd = f.code.clone();
        proof {
            assert(nm@ == funds@[k as int].name@);
            assert(cd@ == funds@[k as int].code@);
        }
        names.push(nm);
        codes.push(cd);
        k = k + 1;
    }
    (names, codes)
}

impl Transaction {
    /// Build the aligned snapshot of several fund series over the window
    /// `[start_date, end_date)`.  The start defaults to the latest first
    /// date, the end to one day past the earliest last date; every series
    /// must carry exactly the same dates over the restricted window, and
    /// every value must be positive.
    #[verifier::rlimit(100)]
    pub fn new(funds: &Vec<&Fund>, start_date: Option<Date>, end_date: Option<Date>) -> (r:
        Transaction)
        requires
            funds@.len() > 0,
            funds_ok(funds@),
            start_date is Some ==> start_date->0.valid(),
            end_date is Some ==> end_date->0.valid(),
            end_date is None ==> !(min_last_date(funds@, funds@.len() - 1).year == 9999
                && min_last_date(funds@, funds@.len() - 1).month == 12 && min_last_date(
                funds@,
                funds@.len() - 1,
            ).day == 31),
            aligned(
                funds@,
                chosen_start_dn(funds@, start_date),
                chosen_end_dn(funds@, end_date),
            ),
        ensures
            r.wf(),
            r.names@.len() == funds@.len(),
            r.nfunds_spec() == funds@.len(),
            forall|k: int|
                0 <= k < funds@.len() ==> (#[trigger] r.names@[k])@ == funds@[k].name@
                    && r.codes@[k]@ == funds@[k].code@,
            r.start_date == if start_date is Some {
                start_date->0
            } else {
                max_first_date(funds@, funds@.len() - 1)
            },
            end_date is Some ==> r.end_date == end_date->0,
            end_date is None ==> r.end_date.valid() && r.end_date.dn() == min_last_date(
                funds@,
                funds@.len() - 1,
            ).dn() + 1,
            r.ndays_spec() == win_end(
                funds@[0]@,
                chosen_start_dn(funds@, start_date),
                chosen_end_dn(funds@, end_date),
            ) - win_beg(funds@[0]@, chosen_start_dn(funds@, start_date)),
            forall|i: int|
                0 <= i < r.ndays_spec() ==> #[trigger] r.date@[i] == funds@[0]@[win_beg(
                    funds@[0]@,
                    chosen_start_dn(funds@, start_date),
                ) + i].date,
            forall|i: int, k: int|
                0 <= i < r.ndays_spec() && 0 <= k < funds@.len() ==> #[trigger] r.nav_at(i, k)
                    == funds@[k]@[win_beg(funds@[k]@, chosen_start_dn(funds@, start_date))
                    + i].value,
    {
        let n = funds.len();
        let (names, codes) = clone_names(funds);
        // the window's boundary dates
        let sd: Date = match start_date {
            Some(d) => d,
            None => default_start(funds),
        };
        let ed: Date = match end_date {
            Some(d) => d,
            None => {
                let base = default_end_base(funds);
                match base.succ() {
                    Some(d) => d,
                    None => vstd::pervasive::unreached(),
                }
            },
        };
        let ghost sd_dn = chosen_start_dn(funds@, start_date);
        let ghost ed_dn = chosen_end_dn(funds@, end_date);
        proof {
            assert(sd.valid());
            assert(sd.dn() == sd_dn);
            assert(ed.dn() == ed_dn);
        }
        let sdn = sd.day_number();
        let edn = ed.day_number();
        // the per-series window begins
        let mut begs: Vec<usize> = Vec::new();
        let mut k: usize = 0;
        while k < n
            invariant
                n == funds@.len(),
                funds_ok(funds@),
                k <= n,
                begs@.len() == k,
                sdn == sd_dn,
                forall|l: int|
                    0 <= l < k ==> #[trigger] begs@[l] as int == win_beg(funds@[l]@, sd_dn),
            decreases n - k,
        {
            proof {
                assert(fund_ok(funds@[k as int]@));
            }
            let dns = fund_dns(funds[k]);
            let b = search_from(&dns, 0, sdn);
            proof {
                crate::utility::lemma_lower_props(dns@, sdn as int, 0);
            }
            begs.push(b);
            k = k + 1;
        }
        // the common calendar from series 0
        proof {
            assert(fund_ok(funds@[0]@));
        }
        let dns0 = fund_dns(funds[0]);
        let beg0 = begs[0];
        proof {
            crate::utility::lemma_lower_props(dns0@, sdn as int, 0);
        }
        let end0 = search_from(&dns0, beg0, edn);
        let ndays = end0 - beg0;
        proof {
            crate::utility::lemma_lower_props(dns0@, edn as int, 0);
            assert(end0 as int == win_end(funds@[0]@, sd_dn, ed_dn));
        }
        let mut date: Vec<Date> = Vec::new();
        let mut i: usize = 0;
        while i < ndays
            invariant
                0 < n == funds@.len(),
                funds_ok(funds@),
                i <= ndays,
                date@.len() == i,
                beg0 as int == win_beg(funds@[0]@, sd_dn),
                beg0 + ndays <= funds@[0]@.len(),
                forall|l: int| 0 <= l < i ==> #[trigger] date@[l] == funds@[0]@[beg0 + l].date,
            decreases ndays - i,
        {
            let f0 = funds[0];
            let fl = f0.len();
            proof {
                assert(fund_ok(funds@[0]@));
                assert(beg0 + i < fl);
                assert(funds@[0]@[beg0 + i].date_spec().valid());
            }
            date.push(f0.index(beg0 + i).date);
            i = i + 1;
        }
        // every series' window is as long as series 0's
        proof {
            assert forall|l: int| 0 <= l < n implies #[trigger] begs@[l] + ndays
                <= funds@[l]@.len() by {
                assert(fund_ok(funds@[l]@));
                assert(win_end(funds@[l]@, sd_dn, ed_dn) - win_beg(funds@[l]@, sd_dn) == win_end(
                    funds@[0]@,
                    sd_dn,
                    ed_dn,
                ) - win_beg(funds@[0]@, sd_dn));
                crate::utility::lemma_lower_props(dns_of(funds@[l]@), sd_dn, 0);
                crate::utility::lemma_lower_props(dns_of(funds@[l]@), ed_dn, 0);
            }
        }
        let navs = build_navs(funds, &begs, ndays);
        let r = Transaction { names, codes, date, navs, start_date: sd, end_date: ed };
        proof {
            assert(r.navs@.len() == r.ndays_spec() * r.nfunds_spec()) by (nonlinear_arith)
                requires
                    r.navs@.len() == ndays * n,
                    r.ndays_spec() == ndays as int,
                    r.nfunds_spec() == n as int,
            ;
            assert forall|p: int| 0 <= p < r.navs@.len() implies #[trigger] r.navs@[p] > 0 by {
                let d = p / (n as int);
                let j = p % (n as int);
                vstd::arithmetic::div_mod::lemma_fundamental_div_mod(p, n as int);
                vstd::arithmetic::div_mod::lemma_mod_bound(p, n as int);
                vstd::arithmetic::div_mod::lemma_div_pos_is_pos(p, n as int);
                assert(p == (n as int) * d + j);
                assert(p == d * (n as int) + j) by (nonlinear_arith)
                    requires
                        p == (n as int) * d + j,
                ;
                assert(d < ndays) by (nonlinear_arith)
                    requires
                        p == d * (n as int) + j,
                        p < ndays * n,
                        0 <= j < n,
                        0 <= d,
                ;
                assert(fund_ok(funds@[j]@));
                assert(begs@[j] + ndays <= funds@[j]@.len());
                assert(flat(d, j, n as int) == p);
                assert(r.navs@[flat(d, j, n as int)] == funds@[j]@[begs@[j] + d].value);
            }
            assert forall|d1: int, d2: int| 0 <= d1 <= d2 < r.date@.len() implies
                #[trigger] r.date@[d1].dn() <= #[trigger] r.date@[d2].dn() by {
                assert(fund_ok(funds@[0]@));
                assert(funds@[0]@[beg0 + d1].date_spec().dn() <= funds@[0]@[beg0
                    + d2].date_spec().dn());
            }
            assert forall|d: int| 0 <= d < r.date@.len() implies (#[trigger] r.date@[d]).valid() by {
                assert(fund_ok(funds@[0]@));
                assert(funds@[0]@[beg0 + d].date_spec().valid());
            }
            assert forall|i: int, k: int| 0 <= i < r.ndays_spec() && 0 <= k < funds@.len()
                implies #[trigger] r.nav_at(i, k) == funds@[k]@[win_beg(
                funds@[k]@,
                chosen_start_dn(funds@, start_date),
            ) + i].value by {
                assert(r.nav_at(i, k) == r.navs@[flat(i, k, n as int)]);
            }
        }
        r
    }

    /// The snapshot over the series' full common span: the window defaults
    /// to the latest first date and one day past the earliest last date.
    #[verifier::rlimit(100)]
    #[verifier::spinoff_prover]
    pub fn from_funds(funds: &Vec<&Fund>) -> (r: Transaction)
        requires
            funds@.len() > 0,
            funds_ok(funds@),
            !(min_last_date(funds@, funds@.len() - 1).year == 9999 && min_last_date(
                funds@,
                funds@.len() - 1,
            ).month == 12 && min_last_date(funds@, funds@.len() - 1).day == 31),
            aligned(funds@, chosen_start_dn(funds@, None), chosen_end_dn(funds@, None)),
        ensures
            r.wf(),
            r.names@.len() == funds@.len(),
            r.nfunds_spec() == funds@.len(),
            forall|k: int|
                0 <= k < funds@.len() ==> (#[trigger] r.names@[k])@ == funds@[k].name@
                    && r.codes@[k]@ == funds@[k].code@,
            r.start_date == max_first_date(funds@, funds@.len() - 1),
            r.end_date.valid(),
            r.end_date.dn() == min_last_date(funds@, funds@.len() - 1).dn() + 1,
            r.ndays_spec() == win_end(
                funds@[0]@,
                chosen_start_dn(funds@, None),
                chosen_end_dn(funds@, None),
            ) - win_beg(funds@[0]@, chosen_start_dn(funds@, None)),
            forall|i: int|
                0 <= i < r.ndays_spec() ==> #[trigger] r.date@[i] == funds@[0]@[win_beg(
                    funds@[0]@,
                    chosen_start_dn(funds@, None),
                ) + i].date,
            forall|i: int, k: int|
                0 <= i < r.ndays_spec() && 0 <= k < funds@.len() ==> #[trigger] r.nav_at(i, k)
                    == funds@[k]@[win_beg(funds@[k]@, chosen_start_dn(funds@, None)) + i].value,
    {
        Self::new(funds, None, None)
    }
}

/// A value fits the fixed-point range.
pub open spec fn fits64(x: int) -> bool {
    i64::MIN <= x <= i64::MAX
}

/// Pending cash and share deltas of the current day, not yet visible to the
/// present-state queries.
#[derive(Debug)]
pub struct IterBuffer {
    pub cash: i64,
    pub shares: Vec<i64>,
}

/// Committed cash and shares as of the beginning of the current day.
#[derive(Debug)]
pub struct IterStatus {
    pub cash: i64,
    pub shares: Vec<i64>,
}

/// Dense per-day history of committed cash and shares, filled up to the
/// current day; the share rows are stored row-major.
#[derive(Debug)]
pub struct IterLog {
    pub cash: Vec<i64>,
    pub shares: Vec<i64>,
}

/// Per-day investment accumulators, comment buffers, and the ledgers being
/// built.
#[derive(Debug)]
pub struct IterRecord {
    pub investments: Vec<i64>,
    pub cash_comment_buffer: String,
    pub fund_comment_buffer: Vec<String>,
    pub cash_record: ConciseRecord,
    pub fund_records: Vec<DetailedRecord>,
}

/// The simulation-arithmetic state of an iterator: everything the present
/// asset depends on, and nothing of the optional log or ledgers.
pub ghost struct SimState {
    pub index: int,
    pub buffer_cash: int,
    pub buffer_shares: Seq<int>,
    pub status_cash: int,
    pub status_shares: Seq<int>,
}

/// The fresh core over a calendar of `nfunds` assets.
pub open spec fn init_state(nfunds: int) -> SimState {
    SimState {
        index: 0,
        buffer_cash: 0,
        buffer_shares: Seq::new(nfunds as nat, |k: int| 0),
        status_cash: 0,
        status_shares: Seq::new(nfunds as nat, |k: int| 0),
    }
}

/// The day-by-day simulation cursor over an aligned snapshot.
pub struct TransactionIterator<'a> {
    pub transaction: &'a Transaction,
    pub index: usize,
    pub iter_buffer: IterBuffer,
    pub iter_status: IterStatus,
    pub iter_log: Option<IterLog>,
    pub iter_record: Option<IterRecord>,
}

impl<'a> TransactionIterator<'a> {
    /// The simulation-arithmetic state.
    pub open spec fn state(&self) -> SimState {
        SimState {
            index: self.index as int,
            buffer_cash: self.iter_buffer.cash as int,
            buffer_shares: self.iter_buffer.shares@.map_values(|v: i64| v as int),
            status_cash: self.iter_status.cash as int,
            status_shares: self.iter_status.shares@.map_values(|v: i64| v as int),
        }
    }

    /// The iteration is at the end of its calendar.
    pub open spec fn is_finished_spec(&self) -> bool {
        self.index == self.transaction.ndays_spec()
    }

    /// The ledgers' last entries are dated no later than the current day.
    pub open spec fn record_dates_ok(&self, rec: IterRecord) -> bool {
        self.index < self.transaction.ndays_spec() ==> {
            let d = self.transaction.date@[self.index as int];
            &&& (rec.cash_record@.len() > 0 ==> rec.cash_record@.last().date_spec().dn() <= d.dn())
            &&& forall|k: int|
                0 <= k < rec.fund_records@.len() ==> ((#[trigger] rec.fund_records@[k])@.len() > 0
                    ==> rec.fund_records@[k]@.last().date_spec().dn() <= d.dn())
        }
    }

    /// The cursor invariant.
    pub open spec fn wf(&self) -> bool {
        &&& self.transaction.wf()
        &&& self.index <= self.transaction.ndays_spec()
        &&& self.iter_buffer.shares@.len() == self.transaction.nfunds_spec()
        &&& self.iter_status.shares@.len() == self.transaction.nfunds_spec()
        &&& match self.iter_log {
            Some(l) => l.cash@.len() == self.transaction.ndays_spec() && l.shares@.len()
                == self.transaction.ndays_spec() * self.transaction.nfunds_spec(),
            None => true,
        }
        &&& match self.iter_record {
            Some(rec) => {
                &&& rec.investments@.len() == self.transaction.nfunds_spec()
                &&& rec.fund_comment_buffer@.len() == self.transaction.nfunds_spec()
                &&& rec.fund_records@.len() == self.transaction.nfunds_spec()
                &&& rec.cash_record.wf()
                &&& (forall|k: int|
                    0 <= k < rec.fund_records@.len() ==> (#[trigger] rec.fund_records@[k]).wf())
                &&& self.record_dates_ok(rec)
            },
            None => true,
        }
    }

    pub fn nfunds(&self) -> (n: usize)
        ensures
            n == self.transaction.nfunds_spec(),
    {
        self.transaction.nfunds()
    }

    pub fn ndays(&self) -> (n: usize)
        ensures
            n == self.transaction.ndays_spec(),
    {
        self.transaction.ndays()
    }

    fn is_finished(&self) -> (b: bool)
        ensures
            b == self.is_finished_spec(),
    {
        self.index == self.transaction.date.len()
    }

    /// The current day's date; once finished, the last day's.
    pub fn today(&self) -> (d: Date)
        requires
            self.wf(),
            self.transaction.ndays_spec() > 0,
        ensures
            d == self.transaction.date@[if self.is_finished_spec() {
                self.index - 1
            } else {
                self.index as int
            }],
            d.valid(),
    {
        if self.is_finished() {
            self.transaction.date[self.index - 1]
        } else {
            self.transaction.date[self.index]
        }
    }

    /// Cash at the beginning of the day.
    pub fn cash(&self) -> (v: i64)
        ensures
            v == self.iter_status.cash,
    {
        self.iter_status.cash
    }

    /// Shares of asset `idx` at the beginning of the day.
    pub fn share(&self, idx: usize) -> (v: i64)
        requires
            self.wf(),
            idx < self.transaction.nfunds_spec(),
        ensures
            v == self.iter_status.shares@[idx as int],
    {
        self.iter_status.shares[idx]
    }
}

/// Creates an all-zero fixed-point vector.
fn zero_vec(n: usize) -> (v: Vec<i64>)
    ensures
        v@.len() == n,
        forall|i: int| 0 <= i < n ==> #[trigger] v@[i] == 0,
{
    let mut v: Vec<i64> = Vec::new();
    let mut i: usize = 0;
    while i < n
        invariant
            i <= n,
            v@.len() == i,
            forall|k: int| 0 <= k < i ==> #[trigger] v@[k] == 0,
        decreases n - i,
    {
        v.push(0);
        i = i + 1;
    }
    v
}

impl<'a> TransactionIterator<'a> {
    /// A fresh cursor at day zero with empty state; the full-calendar log
    /// and the ledgers are allocated when asked for.
    pub fn new(trans: &'a Transaction, save_log: bool, save_record: bool) -> (r: Self)
        requires
            trans.wf(),
        ensures
            r.wf(),
            r.transaction == trans,
            r.state() == init_state(trans.nfunds_spec()),
            r.iter_log is Some <==> save_log,
            r.iter_log is Some ==> (forall|p: int|
                0 <= p < r.iter_log->0.cash@.len() ==> #[trigger] r.iter_log->0.cash@[p] == 0),
            r.iter_log is Some ==> (forall|p: int|
                0 <= p < r.iter_log->0.shares@.len() ==> #[trigger] r.iter_log->0.shares@[p] == 0),
            r.iter_record is Some <==> save_record,
            r.iter_record is Some ==> {
                let rec = r.iter_record->0;
                &&& rec.cash_record@.len() == 0
                &&& rec.cash_record.name@ == "cash"@
                &&& rec.cash_comment_buffer@.len() == 0
                &&& (forall|k: int|
                    0 <= k < trans.nfunds_spec() ==> {
                        &&& (#[trigger] rec.fund_records@[k])@.len() == 0
                        &&& rec.fund_records@[k].name@ == trans.names@[k]@
                        &&& rec.fund_records@[k].code@ == trans.codes@[k]@
                        &&& rec.investments@[k] == 0
                        &&& rec.fund_comment_buffer@[k]@.len() == 0
                    })
            },
    {
        let ndays = trans.ndays();
        let nfunds = trans.nfunds();
        let iter_log = if save_log {
            let total = trans.navs.len();
            Some(IterLog { cash: zero_vec(ndays), shares: zero_vec(total) })
        } else {
            None
        };
        let iter_record = if save_record {
            let mut fund_records: Vec<DetailedRecord> = Vec::new();
            let mut fund_comment_buffer: Vec<String> = Vec::new();
            let mut k: usize = 0;
            while k < nfunds
                invariant
                    trans.wf(),
                    nfunds == trans.nfunds_spec(),
                    k <= nfunds,
                    fund_records@.len() == k,
                    fund_comment_buffer@.len() == k,
                    forall|l: int|
                        0 <= l < k ==> {
                            &&& (#[trigger] fund_records@[l])@.len() == 0
                            &&& fund_records@[l].wf()
                            &&& fund_records@[l].name@ == trans.names@[l]@
                            &&& fund_records@[l].code@ == trans.codes@[l]@
                            &&& fund_comment_buffer@[l]@.len() == 0
                        },
                decreases nfunds - k,
            {
                fund_records.push(
                    DetailedRecord::new(trans.names[k].as_str(), trans.codes[k].as_str()),
                );
                fund_comment_buffer.push(String::new());
                k = k + 1;
            }
            Some(
                IterRecord {
                    investments: zero_vec(nfunds),
                    cash_comment_buffer: String::new(),
                    fund_comment_buffer,
                    cash_record: ConciseRecord::new("cash", ""),
                    fund_records,
                },
            )
        } else {
            None
        };
        let r = TransactionIterator {
            transaction: trans,
            index: 0,
            iter_buffer: IterBuffer { cash: 0, shares: zero_vec(nfunds) },
            iter_status: IterStatus { cash: 0, shares: zero_vec(nfunds) },
            iter_log,
            iter_record,
        };
        proof {
            assert(r.state().buffer_shares =~= init_state(trans.nfunds_spec()).buffer_shares);
            assert(r.state().status_shares =~= init_state(trans.nfunds_spec()).status_shares);
        }
        r
    }
}

impl Transaction {
    /// A fresh cursor over this snapshot.
    pub fn iter(&self, save_log: bool, save_record: bool) -> (r: TransactionIterator<'_>)
        requires
            self.wf(),
        ensures
            r.wf(),
            r.transaction == self,
            r.state() == init_state(self.nfunds_spec()),
            r.iter_log is Some <==> save_log,
            r.iter_log is Some ==> (forall|p: int|
                0 <= p < r.iter_log->0.cash@.len() ==> #[trigger] r.iter_log->0.cash@[p] == 0),
            r.iter_log is Some ==> (forall|p: int|
                0 <= p < r.iter_log->0.shares@.len() ==> #[trigger] r.iter_log->0.shares@[p] == 0),
            r.iter_record is Some <==> save_record,
            r.iter_record is Some ==> ({
                let rec = r.iter_record->0;
                &&& rec.cash_record@.len() == 0
                &&& rec.cash_record.name@ == "cash"@
                &&& rec.cash_comment_buffer@.len() == 0
                &&& (forall|k: int|
                    0 <= k < self.nfunds_spec() ==> {
                        &&& (#[trigger] rec.fund_records@[k])@.len() == 0
                        &&& rec.fund_records@[k].name@ == self.names@[k]@
                        &&& rec.fund_records@[k].code@ == self.codes@[k]@
                        &&& rec.investments@[k] == 0
                        &&& rec.fund_comment_buffer@[k]@.len() == 0
                    })
            }),
    {
        TransactionIterator::new(self, save_log, save_record)
    }
}

/// The recorder's only change is `delta` joining the accumulator of asset
/// `fund`; absent recorders stay absent.
pub open spec fn record_invested(
    pre: Option<IterRecord>,
    post: Option<IterRecord>,
    fund: int,
    delta: int,
) -> bool {
    match pre {
        None => post is None,
        Some(orec) => match post {
            None => false,
            Some(nrec) => {
                &&& nrec.investments@ == orec.investments@.update(
                    fund,
                    (orec.investments@[fund] + delta) as i64,
                )
                &&& nrec.cash_comment_buffer == orec.cash_comment_buffer
                &&& nrec.fund_comment_buffer == orec.fund_comment_buffer
                &&& nrec.cash_record == orec.cash_record
                &&& nrec.fund_records == orec.fund_records
            },
        },
    }
}

/// The share delta a buy books: the investment net of the fee, divided by
/// the day's nav.
pub open spec fn buy_delta(t: &Transaction, c: SimState, fund: int, investment: int, fee: int) -> int {
    dtr((investment - fee) * (FIXED_SCALE as int), t.nav_at(c.index, fund) as int)
}

/// A buy would leave the fixed-point range.
pub open spec fn buy_overflow(
    t: &Transaction,
    c: SimState,
    fund: int,
    investment: int,
    fee: int,
) -> bool {
    ||| !fits64(c.buffer_cash - investment)
    ||| !fits64(buy_delta(t, c, fund, investment, fee))
    ||| !fits64(c.buffer_shares[fund] + buy_delta(t, c, fund, investment, fee))
}

/// The cash a sell books: the shares at the day's nav, net of the fee.
pub open spec fn sell_income(t: &Transaction, c: SimState, fund: int, share: int, fee: int) -> int {
    dtr(share * t.nav_at(c.index, fund) as int, FIXED_SCALE as int) - fee
}

/// A sell would leave the fixed-point range.
pub open spec fn sell_overflow(
    t: &Transaction,
    c: SimState,
    fund: int,
    share: int,
    fee: int,
) -> bool {
    ||| !fits64(dtr(share * t.nav_at(c.index, fund) as int, FIXED_SCALE as int))
    ||| !fits64(sell_income(t, c, fund, share, fee))
    ||| !fits64(c.buffer_cash + sell_income(t, c, fund, share, fee))
    ||| !fits64(c.buffer_shares[fund] - share)
}

/// Joins a comment onto a buffer with `"; "`, realizing
/// [`crate::record::join2`].
fn join_str(cur: String, c: &str) -> (r: String)
    ensures
        r@ == join2(cur@, c@),
{
    if c.is_empty() {
        cur
    } else if cur.as_str().is_empty() {
        let r = c.to_owned();
        proof {
            assert(r@ =~= join2(cur@, c@));
        }
        r
    } else {
        let ghost curv = cur@;
        let r = cur.concat("; ").concat(c);
        proof {
            assert(r@ == join2(curv, c@));
        }
        r
    }
}

impl<'a> TransactionIterator<'a> {
    /// Add `amount` to the day's pending cash.
    pub fn inflow(&mut self, amount: i64) -> (r: Result<(), TransactionError>)
        requires
            old(self).wf(),
        ensures
            final(self).wf(),
            final(self).state() == sim_step(
                old(self).transaction,
                old(self).state(),
                Op::Inflow { amount },
            ),
            old(self).is_finished_spec() ==> r == Err::<(), TransactionError>(
                TransactionError::Finished,
            ) && *final(self) == *old(self),
            !old(self).is_finished_spec() && !fits64(old(self).state().buffer_cash + amount) ==> r
                == Err::<(), TransactionError>(TransactionError::Overflow) && *final(self) == *old(
                self,
            ),
            !old(self).is_finished_spec() && fits64(old(self).state().buffer_cash + amount) ==> ({
                &&& r == Ok::<(), TransactionError>(())
                &&& final(self).state() == (SimState {
                    buffer_cash: old(self).state().buffer_cash + amount,
                    ..old(self).state()
                })
                &&& final(self).transaction == old(self).transaction
                &&& final(self).iter_log == old(self).iter_log
                &&& final(self).iter_record == old(self).iter_record
            }),
    {
        if self.is_finished() {
            return Err(TransactionError::Finished);
        }
        let nbc = (self.iter_buffer.cash as i128) + (amount as i128);
        if nbc > i64::MAX as i128 || nbc < i64::MIN as i128 {
            return Err(TransactionError::Overflow);
        }
        self.iter_buffer.cash = nbc as i64;
        Ok(())
    }

    /// Buy into asset `fundid`: the investment leaves the pending cash, and
    /// the investment net of `fee`, at today's nav, joins the pending shares.
    pub fn buy(&mut self, fundid: usize, investment: i64, fee: i64) -> (r: Result<
        (),
        TransactionError,
    >)
        requires
            old(self).wf(),
            fundid < old(self).transaction.nfunds_spec(),
            old(self).iter_record is Some && !old(self).is_finished_spec() && !buy_overflow(
                old(self).transaction,
                old(self).state(),
                fundid as int,
                investment as int,
                fee as int,
            ) ==> fits64(
                old(self).iter_record->0.investments@[fundid as int] + investment,
            ),
        ensures
            final(self).wf(),
            final(self).state() == sim_step(
                old(self).transaction,
                old(self).state(),
                Op::Buy { fund: fundid as int, investment, fee },
            ),
            old(self).is_finished_spec() ==> r == Err::<(), TransactionError>(
                TransactionError::Finished,
            ) && *final(self) == *old(self),
            !old(self).is_finished_spec() && buy_overflow(
                old(self).transaction,
                old(self).state(),
                fundid as int,
                investment as int,
                fee as int,
            ) ==> r == Err::<(), TransactionError>(TransactionError::Overflow) && *final(self)
                == *old(self),
            !old(self).is_finished_spec() && !buy_overflow(
                old(self).transaction,
                old(self).state(),
                fundid as int,
                investment as int,
                fee as int,
            ) ==> ({
                let c = old(self).state();
                let delta = buy_delta(
                    old(self).transaction,
                    c,
                    fundid as int,
                    investment as int,
                    fee as int,
                );
                &&& r == Ok::<(), TransactionError>(())
                &&& final(self).state() == (SimState {
                    buffer_cash: c.buffer_cash - investment,
                    buffer_shares: c.buffer_shares.update(
                        fundid as int,
                        c.buffer_shares[fundid as int] + delta,
                    ),
                    ..c
                })
                &&& final(self).transaction == old(self).transaction
                &&& final(self).iter_log == old(self).iter_log
                &&& record_invested(
                    old(self).iter_record,
                    final(self).iter_record,
                    fundid as int,
                    investment as int,
                )
            }),
    {
        if self.is_finished() {
            return Err(TransactionError::Finished);
        }
        let nav = self.transaction.nav(self.index, fundid);
        let nbc = (self.iter_buffer.cash as i128) - (investment as i128);
        if nbc > i64::MAX as i128 || nbc < i64::MIN as i128 {
            return Err(TransactionError::Overflow);
        }
        proof {
            crate::numeric::lemma_abs_mul(
                investment as int - fee as int,
                FIXED_SCALE as int,
                0x20000000000000000,
                FIXED_SCALE as int,
            );
        }
        let delta = crate::numeric::div_q(
            ((investment as i128) - (fee as i128)) * (FIXED_SCALE as i128),
            nav as i128,
        );
        if delta > i64::MAX as i128 || delta < i64::MIN as i128 {
            return Err(TransactionError::Overflow);
        }
        let cur = self.iter_buffer.shares[fundid];
        let ns = (cur as i128) + delta;
        if ns > i64::MAX as i128 || ns < i64::MIN as i128 {
            return Err(TransactionError::Overflow);
        }
        self.iter_buffer.cash = nbc as i64;
        self.iter_buffer.shares.set(fundid, ns as i64);
        match &mut self.iter_record {
            Some(rec) => {
                let curinv = rec.investments[fundid];
                rec.investments.set(fundid, curinv + investment);
            },
            None => {},
        }
        proof {
            let c = old(self).state();
            let delta_s = buy_delta(
                old(self).transaction,
                c,
                fundid as int,
                investment as int,
                fee as int,
            );
            assert(final(self).state().buffer_shares =~= c.buffer_shares.update(
                fundid as int,
                c.buffer_shares[fundid as int] + delta_s,
            ));
            assert(final(self).state().status_shares =~= c.status_shares);
        }
        Ok(())
    }

    /// Sell `share` units of asset `fundid`: the proceeds at today's nav,
    /// net of `fee`, join the pending cash, and the shares leave the pending
    /// shares.
    pub fn sell(&mut self, fundid: usize, share: i64, fee: i64) -> (r: Result<
        (),
        TransactionError,
    >)
        requires
            old(self).wf(),
            fundid < old(self).transaction.nfunds_spec(),
            old(self).iter_record is Some && !old(self).is_finished_spec() && !sell_overflow(
                old(self).transaction,
                old(self).state(),
                fundid as int,
                share as int,
                fee as int,
            ) ==> fits64(
                old(self).iter_record->0.investments@[fundid as int] - sell_income(
                    old(self).transaction,
                    old(self).state(),
                    fundid as int,
                    share as int,
                    fee as int,
                ),
            ),
        ensures
            final(self).wf(),
            final(self).state() == sim_step(
                old(self).transaction,
                old(self).state(),
                Op::Sell { fund: fundid as int, share, fee },
            ),
            old(self).is_finished_spec() ==> r == Err::<(), TransactionError>(
                TransactionError::Finished,
            ) && *final(self) == *old(self),
            !old(self).is_finished_spec() && sell_overflow(
                old(self).transaction,
                old(self).state(),
                fundid as int,
                share as int,
                fee as int,
            ) ==> r == Err::<(), TransactionError>(TransactionError::Overflow) && *final(self)
                == *old(self),
            !old(self).is_finished_spec() && !sell_overflow(
                old(self).transaction,
                old(self).state(),
                fundid as int,
                share as int,
                fee as int,
            ) ==> ({
                let c = old(self).state();
                let income = sell_income(
                    old(self).transaction,
                    c,
                    fundid as int,
                    share as int,
                    fee as int,
                );
                &&& r == Ok::<(), TransactionError>(())
                &&& final(self).state() == (SimState {
                    buffer_cash: c.buffer_cash + income,
                    buffer_shares: c.buffer_shares.update(
                        fundid as int,
                        c.buffer_shares[fundid as int] - share,
                    ),
                    ..c
                })
                &&& final(self).transaction == old(self).transaction
                &&& final(self).iter_log == old(self).iter_log
                &&& record_invested(
                    old(self).iter_record,
                    final(self).iter_record,
                    fundid as int,
                    -income,
                )
            }),
    {
        if self.is_finished() {
            return Err(TransactionError::Finished);
        }
        let nav = self.transaction.nav(self.index, fundid);
        proof {
            crate::numeric::lemma_abs_mul(
                share as int,
                nav as int,
                0x8000000000000000,
                0x8000000000000000,
            );
        }
        let proceeds = crate::numeric::div_q(
            (share as i128) * (nav as i128),
            FIXED_SCALE as i128,
        );
        if proceeds > i64::MAX as i128 || proceeds < i64::MIN as i128 {
            return Err(TransactionError::Overflow);
        }
        let income = proceeds - (fee as i128);
        if income > i64::MAX as i128 || income < i64::MIN as i128 {
            return Err(TransactionError::Overflow);
        }
        let nbc = (self.iter_buffer.cash as i128) + income;
        if nbc > i64::MAX as i128 || nbc < i64::MIN as i128 {
            return Err(TransactionError::Overflow);
        }
        let cur = self.iter_buffer.shares[fundid];
        let ns = (cur as i128) - (share as i128);
        if ns > i64::MAX as i128 || ns < i64::MIN as i128 {
            return Err(TransactionError::Overflow);
        }
        self.iter_buffer.cash = nbc as i64;
        self.iter_buffer.shares.set(fundid, ns as i64);
        match &mut self.iter_record {
            Some(rec) => {
                let curinv = rec.investments[fundid];
                rec.investments.set(fundid, curinv - (income as i64));
            },
            None => {},
        }
        proof {
            let c = old(self).state();
            assert(final(self).state().buffer_shares =~= c.buffer_shares.update(
                fundid as int,
                c.buffer_shares[fundid as int] - share,
            ));
            assert(final(self).state().status_shares =~= c.status_shares);
        }
        Ok(())
    }
}

/// Relies on std::io::stderr for a non-fatal diagnostic line.
#[verifier::external_body]
fn warn(msg: &str) {
    let _ = writeln!(&mut std::io::stderr(), "{}", msg);
}

/// The appends of [`Record::append`] on a detailed ledger stay in the
/// fixed-point range.
pub open spec fn detailed_fits(s: Seq<DetailedRecordSlice>, inv: int, nav: int, share: int) -> bool {
    &&& fits64(dtr(nav * share, FIXED_SCALE as int))
    &&& fits64(inv - dtr(nav * share, FIXED_SCALE as int))
    &&& fits64(next_total_investment(s, inv))
    &&& fits64(next_total_share(s, share))
    &&& fits64(dtr(nav * next_total_share(s, share), FIXED_SCALE as int))
    &&& fits64(
        dtr(nav * next_total_share(s, share), FIXED_SCALE as int) - next_total_investment(s, inv),
    )
}

/// A detailed ledger gained exactly the entry of one flushed day.
pub open spec fn appended_detail(
    o: DetailedRecord,
    nr: DetailedRecord,
    d: Date,
    inv: int,
    nav: int,
    share: int,
    comment: Seq<char>,
) -> bool {
    &&& nr@.len() == o@.len() + 1
    &&& nr@.subrange(0, o@.len() as int) == o@
    &&& nr@.last().date == d
    &&& nr@.last().investment as int == inv
    &&& nr@.last().nav as int == nav
    &&& nr@.last().share as int == share
    &&& nr@.last().comment@ == comment
    &&& nr@.last().total_investment as int == next_total_investment(o@, inv)
    &&& nr@.last().total_share as int == next_total_share(o@, share)
    &&& nr.name == o.name
    &&& nr.code == o.code
}

impl<'a> TransactionIterator<'a> {
    /// Flushing the current day stays in the fixed-point range: the new
    /// committed state fits, and so do the ledger entries it would append.
    pub open spec fn flush_fits(&self) -> bool {
        let c = self.state();
        let t = self.transaction;
        let nf = t.nfunds_spec();
        &&& fits64(c.status_cash + c.buffer_cash)
        &&& (forall|k: int|
            0 <= k < nf ==> fits64(#[trigger] c.status_shares[k] + c.buffer_shares[k]))
        &&& match self.iter_record {
            None => true,
            Some(rec) => {
                &&& fits64(next_total_investment(rec.cash_record@, c.buffer_cash))
                &&& fits64(
                    c.status_cash + c.buffer_cash - next_total_investment(
                        rec.cash_record@,
                        c.buffer_cash,
                    ),
                )
                &&& forall|k: int|
                    0 <= k < nf ==> detailed_fits(
                        (#[trigger] rec.fund_records@[k])@,
                        rec.investments@[k] as int,
                        t.nav_at(c.index, k) as int,
                        c.buffer_shares[k],
                    )
            },
        }
    }

    /// The relation between an iterator and its state after one flush: the
    /// pending buffer is folded into the committed state and, when recording,
    /// one dated entry per ledger is appended and the day buffers reset.
    pub open spec fn flushed(pre: Self, post: Self) -> bool {
        let t = pre.transaction;
        let c = pre.state();
        let d = t.date@[c.index];
        let ncash = c.status_cash + c.buffer_cash;
        let nf = t.nfunds_spec();
        &&& post.transaction == pre.transaction
        &&& post.state() == (SimState {
            index: c.index,
            buffer_cash: 0,
            buffer_shares: Seq::new(c.buffer_shares.len(), |k: int| 0),
            status_cash: ncash,
            status_shares: Seq::new(
                c.status_shares.len(),
                |k: int| c.status_shares[k] + c.buffer_shares[k],
            ),
        })
        &&& post.iter_log == pre.iter_log
        &&& match pre.iter_record {
            None => post.iter_record is None,
            Some(orec) => match post.iter_record {
                None => false,
                Some(nrec) => {
                    &&& nrec.investments@.len() == orec.investments@.len()
                    &&& (forall|k: int|
                        0 <= k < nrec.investments@.len() ==> #[trigger] nrec.investments@[k] == 0)
                    &&& nrec.cash_comment_buffer@.len() == 0
                    &&& nrec.fund_comment_buffer@.len() == orec.fund_comment_buffer@.len()
                    &&& (forall|k: int|
                        0 <= k < nrec.fund_comment_buffer@.len() ==> (
                        #[trigger] nrec.fund_comment_buffer@[k])@.len() == 0)
                    &&& nrec.cash_record@.len() == orec.cash_record@.len() + 1
                    &&& nrec.cash_record@.subrange(0, orec.cash_record@.len() as int)
                        == orec.cash_record@
                    &&& nrec.cash_record@.last().date == d
                    &&& nrec.cash_record@.last().investment as int == c.buffer_cash
                    &&& nrec.cash_record@.last().present_value as int == ncash
                    &&& nrec.cash_record@.last().comment@ == orec.cash_comment_buffer@
                    &&& nrec.cash_record.name == orec.cash_record.name
                    &&& nrec.cash_record.code == orec.cash_record.code
                    &&& nrec.fund_records@.len() == orec.fund_records@.len()
                    &&& forall|k: int|
                        0 <= k < nf ==> appended_detail(
                            #[trigger] orec.fund_records@[k],
                            nrec.fund_records@[k],
                            d,
                            orec.investments@[k] as int,
                            t.nav_at(c.index, k) as int,
                            c.buffer_shares[k],
                            orec.fund_comment_buffer@[k]@,
                        )
                },
            },
        }
    }

    /// Commit the day's pending buffer into the visible state, appending the
    /// day's entries to the ledgers when recording.
    #[verifier::rlimit(100)]
    fn flush(&mut self)
        requires
            old(self).wf(),
            !old(self).is_finished_spec(),
            old(self).flush_fits(),
        ensures
            final(self).wf(),
            Self::flushed(*old(self), *final(self)),
    {
        let ghost pre = *old(self);
        let idx = self.index;
        let today = self.transaction.date[idx];
        let nf = self.transaction.nfunds();
        // committed state
        self.iter_status.cash = self.iter_status.cash + self.iter_buffer.cash;
        let mut k: usize = 0;
        while k < nf
            invariant
                pre.wf(),
                pre.flush_fits(),
                nf == pre.transaction.nfunds_spec(),
                k <= nf,
                self.iter_status.shares@.len() == nf,
                self.iter_buffer.shares@ == pre.iter_buffer.shares@,
                self.iter_buffer.shares@.len() == nf,
                self.iter_buffer.cash == pre.iter_buffer.cash,
                self.transaction == pre.transaction,
                self.index == pre.index,
                self.iter_record == pre.iter_record,
                self.iter_log == pre.iter_log,
                self.iter_status.cash as int == pre.state().status_cash
                    + pre.state().buffer_cash,
                forall|l: int|
                    0 <= l < k ==> #[trigger] self.iter_status.shares@[l] as int
                        == pre.state().status_shares[l] + pre.state().buffer_shares[l],
                forall|l: int|
                    k <= l < nf ==> #[trigger] self.iter_status.shares@[l]
                        == pre.iter_status.shares@[l],
            decreases nf - k,
        {
            proof {
                assert(fits64(pre.state().status_shares[k as int] + pre.state().buffer_shares[k as int]));
            }
            let sum = self.iter_status.shares[k] + self.iter_buffer.shares[k];
            self.iter_status.shares.set(k, sum);
            k = k + 1;
        }
        // ledgers
        let mut rec_opt: Option<IterRecord> = None;
        std::mem::swap(&mut rec_opt, &mut self.iter_record);
        match rec_opt {
            Some(mut rec) => {
                proof {
                    assert(pre.iter_record is Some);
                    assert(pre.record_dates_ok(pre.iter_record->0));
                    assert(rec.cash_record.wf());
                }
                rec.cash_record.append(
                    today,
                    self.iter_buffer.cash,
                    self.iter_status.cash,
                    rec.cash_comment_buffer.as_str(),
                );
                rec.cash_comment_buffer = String::new();
                let mut k: usize = 0;
                while k < nf
                    invariant
                        pre.wf(),
                        pre.flush_fits(),
                        !pre.is_finished_spec(),
                        nf == pre.transaction.nfunds_spec(),
                        k <= nf,
                        pre.iter_record is Some,
                        today == pre.transaction.date@[pre.index as int],
                        rec.investments@ == pre.iter_record->0.investments@,
                        rec.fund_records@.len() == nf,
                        rec.fund_comment_buffer@.len() == nf,
                        pre.iter_record->0.fund_records@.len() == nf,
                        pre.iter_record->0.fund_comment_buffer@.len() == nf,
                        pre.iter_record->0.investments@.len() == nf,
                        self.iter_buffer.shares@ == pre.iter_buffer.shares@,
                        self.iter_buffer.shares@.len() == nf,
                        self.iter_buffer.cash == pre.iter_buffer.cash,
                        self.transaction == pre.transaction,
                        self.index == pre.index,
                        self.iter_log == pre.iter_log,
                        self.iter_record is None,
                        self.iter_status.cash as int == pre.state().status_cash
                            + pre.state().buffer_cash,
                        self.iter_status.shares@.len() == nf,
                        forall|l: int|
                            0 <= l < nf ==> #[trigger] self.iter_status.shares@[l] as int
                                == pre.state().status_shares[l] + pre.state().buffer_shares[l],
                        rec.cash_record@.len() == pre.iter_record->0.cash_record@.len() + 1,
                        rec.cash_record@.subrange(
                            0,
                            pre.iter_record->0.cash_record@.len() as int,
                        ) == pre.iter_record->0.cash_record@,
                        rec.cash_record@.last().date == today,
                        rec.cash_record@.last().investment == pre.iter_buffer.cash,
                        rec.cash_record@.last().present_value as int == pre.state().status_cash
                            + pre.state().buffer_cash,
                        rec.cash_record@.last().comment@
                            == pre.iter_record->0.cash_comment_buffer@,
                        rec.cash_record.name == pre.iter_record->0.cash_record.name,
                        rec.cash_record.code == pre.iter_record->0.cash_record.code,
                        rec.cash_record.wf(),
                        rec.cash_comment_buffer@.len() == 0,
                        forall|l: int|
                            0 <= l < k ==> appended_detail(
                                #[trigger] pre.iter_record->0.fund_records@[l],
                                rec.fund_records@[l],
                                today,
                                pre.iter_record->0.investments@[l] as int,
                                pre.transaction.nav_at(pre.index as int, l) as int,
                                pre.state().buffer_shares[l],
                                pre.iter_record->0.fund_comment_buffer@[l]@,
                            ),
                        forall|l: int|
                            0 <= l < k ==> (#[trigger] rec.fund_records@[l]).wf(),
                        forall|l: int|
                            k <= l < nf ==> #[trigger] rec.fund_records@[l]
                                == pre.iter_record->0.fund_records@[l],
                        forall|l: int|
                            0 <= l < k ==> (#[trigger] rec.fund_comment_buffer@[l])@.len() == 0,
                        forall|l: int|
                            k <= l < nf ==> #[trigger] rec.fund_comment_buffer@[l]
                                == pre.iter_record->0.fund_comment_buffer@[l],
                    decreases nf - k,
                {
                    proof {
                        assert(pre.record_dates_ok(pre.iter_record->0));
                        assert(detailed_fits(
                            pre.iter_record->0.fund_records@[k as int]@,
                            pre.iter_record->0.investments@[k as int] as int,
                            pre.transaction.nav_at(pre.index as int, k as int) as int,
                            pre.state().buffer_shares[k as int],
                        ));
                        assert((pre.iter_record->0.fund_records@[k as int]).wf());
                    }
                    let nav = self.transaction.nav(self.index, k);
                    let inv = rec.investments[k];
                    let sh = self.iter_buffer.shares[k];
                    let cbuf = rec.fund_comment_buffer[k].clone();
                    rec.fund_records[k].append(today, inv, nav, sh, cbuf.as_str());
                    rec.fund_comment_buffer.set(k, String::new());
                    k = k + 1;
                }
                // reset the day's accumulators
                let mut k: usize = 0;
                let ghost recs_after = rec.fund_records@;
                let ghost bufs_after = rec.fund_comment_buffer@;
                let ghost cash_after = rec.cash_record;
                let ghost ccb_after = rec.cash_comment_buffer;
                while k < nf
                    invariant
                        k <= nf,
                        rec.investments@.len() == nf,
                        rec.fund_records@ == recs_after,
                        rec.fund_comment_buffer@ == bufs_after,
                        rec.cash_record == cash_after,
                        rec.cash_comment_buffer == ccb_after,
                        forall|l: int| 0 <= l < k ==> #[trigger] rec.investments@[l] == 0,
                    decreases nf - k,
                {
                    rec.investments.set(k, 0);
                    k = k + 1;
                }
                self.iter_record = Some(rec);
            },
            None => {},
        }
        let ghost mid = *self;
        // reset the pending buffer
        self.iter_buffer.cash = 0;
        let mut k: usize = 0;
        while k < nf
            invariant
                k <= nf,
                self.iter_buffer.shares@.len() == nf,
                self.iter_buffer.cash == 0,
                self.transaction == mid.transaction,
                self.index == mid.index,
                self.iter_record == mid.iter_record,
                self.iter_log == mid.iter_log,
                self.iter_status == mid.iter_status,
                forall|l: int|
                    k <= l < nf ==> #[trigger] self.iter_buffer.shares@[l]
                        == mid.iter_buffer.shares@[l],
                forall|l: int| 0 <= l < k ==> #[trigger] self.iter_buffer.shares@[l] == 0,
            decreases nf - k,
        {
            self.iter_buffer.shares.set(k, 0);
            k = k + 1;
        }
        proof {
            let c = pre.state();
            assert(final(self).state().status_shares =~= Seq::new(
                c.status_shares.len(),
                |k: int| c.status_shares[k] + c.buffer_shares[k],
            ));
            assert(final(self).state().buffer_shares =~= Seq::new(
                c.buffer_shares.len(),
                |k: int| 0,
            ));
            if self.iter_record is Some {
                let nrec = self.iter_record->0;
                let orec = pre.iter_record->0;
                assert forall|l: int| 0 <= l < nrec.fund_records@.len() implies (
                #[trigger] nrec.fund_records@[l]).wf() by {
                    assert(appended_detail(
                        orec.fund_records@[l],
                        nrec.fund_records@[l],
                        today,
                        orec.investments@[l] as int,
                        pre.transaction.nav_at(pre.index as int, l) as int,
                        pre.state().buffer_shares[l],
                        orec.fund_comment_buffer@[l]@,
                    ));
                }
                assert(self.record_dates_ok(nrec)) by {
                    if self.index < self.transaction.ndays_spec() {
                        let d = self.transaction.date@[self.index as int];
                        assert(d == today);
                        assert forall|l: int| 0 <= l < nrec.fund_records@.len() implies ((
                        #[trigger] nrec.fund_records@[l])@.len() > 0
                            ==> nrec.fund_records@[l]@.last().date_spec().dn() <= d.dn()) by {
                            assert(appended_detail(
                                orec.fund_records@[l],
                                nrec.fund_records@[l],
                                today,
                                orec.investments@[l] as int,
                                pre.transaction.nav_at(pre.index as int, l) as int,
                                pre.state().buffer_shares[l],
                                orec.fund_comment_buffer@[l]@,
                            ));
                            assert(nrec.fund_records@[l]@.last().date == today);
                        }
                    }
                }
            }
        }
    }
}

impl<'a> TransactionIterator<'a> {
    /// The relation between an iterator and its state after moving `n` days
    /// forward (capped at the calendar's end): the committed state is
    /// replicated into the skipped days' log rows, and nothing else changes.
    pub open spec fn stepped(pre: Self, post: Self, n: int) -> bool {
        let t = pre.transaction;
        let nf = t.nfunds_spec();
        let ni = if pre.index + n > t.ndays_spec() {
            t.ndays_spec()
        } else {
            pre.index + n
        };
        &&& post.transaction == pre.transaction
        &&& post.state() == (SimState { index: ni, ..pre.state() })
        &&& post.iter_record == pre.iter_record
        &&& match pre.iter_log {
            None => post.iter_log is None,
            Some(olog) => match post.iter_log {
                None => false,
                Some(nlog) => {
                    &&& nlog.cash@.len() == olog.cash@.len()
                    &&& nlog.shares@.len() == olog.shares@.len()
                    &&& (forall|p: int|
                        0 <= p < olog.cash@.len() ==> #[trigger] nlog.cash@[p] == if pre.index <= p
                            < ni {
                            pre.iter_status.cash
                        } else {
                            olog.cash@[p]
                        })
                    &&& (forall|d: int, k: int|
                        pre.index <= d < ni && 0 <= k < nf ==> #[trigger] nlog.shares@[flat(
                            d,
                            k,
                            nf,
                        )] == pre.iter_status.shares@[k])
                    &&& (forall|p: int|
                        0 <= p < olog.shares@.len() && !(pre.index * nf <= p < ni * nf)
                            ==> #[trigger] nlog.shares@[p] == olog.shares@[p])
                },
            },
        }
    }

    /// Move `n` days forward, capped at the calendar's end, replicating the
    /// committed state into the skipped days' log rows.
    #[verifier::rlimit(100)]
    fn step(&mut self, n: usize)
        requires
            old(self).wf(),
        ensures
            final(self).wf(),
            Self::stepped(*old(self), *final(self), n as int),
    {
        let ghost pre = *old(self);
        let ndays = self.transaction.ndays();
        let nf = self.transaction.nfunds();
        let ni = if n >= ndays - self.index {
            ndays
        } else {
            self.index + n
        };
        let mut rlog: Option<IterLog> = None;
        std::mem::swap(&mut rlog, &mut self.iter_log);
        match rlog {
            Some(mut log) => {
                let mut i = self.index;
                while i < ni
                    invariant
                        pre.wf(),
                        pre.iter_log is Some,
                        ndays == pre.transaction.ndays_spec(),
                        nf == pre.transaction.nfunds_spec(),
                        pre.index <= i <= ni <= ndays,
                        self.index == pre.index,
                        self.transaction == pre.transaction,
                        self.iter_status == pre.iter_status,
                        self.iter_buffer == pre.iter_buffer,
                        self.iter_record == pre.iter_record,
                        self.iter_log is None,
                        log.cash@.len() == pre.iter_log->0.cash@.len(),
                        log.shares@.len() == pre.iter_log->0.shares@.len(),
                        log.cash@.len() == ndays,
                        log.shares@.len() == ndays * nf,
                        forall|p: int|
                            0 <= p < log.cash@.len() ==> #[trigger] log.cash@[p] == if pre.index
                                <= p < i {
                                pre.iter_status.cash
                            } else {
                                pre.iter_log->0.cash@[p]
                            },
                        forall|d: int, k: int|
                            pre.index <= d < i && 0 <= k < nf ==> #[trigger] log.shares@[flat(
                                d,
                                k,
                                nf as int,
                            )] == pre.iter_status.shares@[k],
                        forall|p: int|
                            0 <= p < log.shares@.len() && !(pre.index * nf <= p < i * nf)
                                ==> #[trigger] log.shares@[p] == pre.iter_log->0.shares@[p],
                    decreases ni - i,
                {
                    log.cash.set(i, self.iter_status.cash);
                    let ghost shares_before = log.shares@;
                    let ghost cash_after = log.cash@;
                    let mut k: usize = 0;
                    while k < nf
                        invariant
                            pre.wf(),
                            nf == pre.transaction.nfunds_spec(),
                            ndays == pre.transaction.ndays_spec(),
                            pre.index <= i < ni <= ndays,
                            k <= nf,
                            self.iter_status == pre.iter_status,
                            self.iter_status.shares@.len() == nf,
                            log.cash@ == cash_after,
                            log.shares@.len() == ndays * nf,
                            shares_before.len() == ndays * nf,
                            forall|kk: int|
                                0 <= kk < k ==> #[trigger] log.shares@[flat(i as int, kk, nf as int)]
                                    == pre.iter_status.shares@[kk],
                            forall|p: int|
                                0 <= p < log.shares@.len() && !(i * nf <= p < i * nf + k)
                                    ==> #[trigger] log.shares@[p] == shares_before[p],
                        decreases nf - k,
                    {
                        let slen = log.shares.len();
                        proof {
                            lemma_flat_index(i as int, k as int, ndays as int, nf as int);
                            assert(i * nf + k < slen);
                        }
                        log.shares.set(i * nf + k, self.iter_status.shares[k]);
                        proof {
                            assert forall|kk: int| 0 <= kk < k + 1 implies #[trigger] log.shares@[flat(
                                i as int,
                                kk,
                                nf as int,
                            )] == pre.iter_status.shares@[kk] by {
                                if kk < k {
                                    assert(flat(i as int, kk, nf as int) != i * nf + k);
                                    assert(i * nf <= flat(i as int, kk, nf as int) < i * nf + k);
                                }
                            }
                            assert forall|p: int| 0 <= p < log.shares@.len() && !(i * nf <= p < i
                                * nf + k + 1) implies #[trigger] log.shares@[p]
                                == shares_before[p] by {}
                        }
                        k = k + 1;
                    }
                    proof {
                        assert forall|d: int, kk: int| pre.index <= d < i + 1 && 0 <= kk < nf
                            implies #[trigger] log.shares@[flat(d, kk, nf as int)]
                            == pre.iter_status.shares@[kk] by {
                            if d < i {
                                assert(flat(d, kk, nf as int) < i * nf) by (nonlinear_arith)
                                    requires
                                        0 <= d < i,
                                        0 <= kk < nf,
                                        flat(d, kk, nf as int) == d * nf + kk,
                                ;
                                assert(0 <= flat(d, kk, nf as int)) by (nonlinear_arith)
                                    requires
                                        0 <= d,
                                        0 <= kk,
                                        0 <= nf,
                                        flat(d, kk, nf as int) == d * nf + kk,
                                ;
                                lemma_flat_index(d, kk, ndays as int, nf as int);
                                assert(shares_before[flat(d, kk, nf as int)]
                                    == pre.iter_status.shares@[kk]);
                                assert(log.shares@[flat(d, kk, nf as int)] == shares_before[flat(
                                    d,
                                    kk,
                                    nf as int,
                                )]);
                            }
                        }
                        assert forall|p: int| 0 <= p < log.shares@.len() && !(pre.index * nf <= p
                            < (i + 1) * nf) implies #[trigger] log.shares@[p]
                            == pre.iter_log->0.shares@[p] by {
                            assert((i + 1) * nf == i * nf + nf) by (nonlinear_arith);
                            assert(pre.index * nf <= i * nf) by (nonlinear_arith)
                                requires
                                    pre.index <= i,
                                    0 <= nf,
                            ;
                        }
                    }
                    i = i + 1;
                }
                self.iter_log = Some(log);
            },
            None => {},
        }
        self.index = ni;
        proof {
            assert(final(self).state().buffer_shares =~= pre.state().buffer_shares);
            assert(final(self).state().status_shares =~= pre.state().status_shares);
            if self.iter_record is Some && self.index < self.transaction.ndays_spec() {
                assert(pre.record_dates_ok(pre.iter_record->0));
                assert(pre.transaction.date@[pre.index as int].dn()
                    <= self.transaction.date@[self.index as int].dn());
            }
        }
    }

    /// Flush the day and move `n` days forward; `None` once the end of the
    /// calendar is reached, before or by this advance.  A zero-day advance
    /// re-flushes the same day and is flagged with a diagnostic.
    fn flush_and_step(&mut self, n: usize) -> (r: Option<()>)
        requires
            old(self).wf(),
            !old(self).is_finished_spec() ==> old(self).flush_fits(),
        ensures
            final(self).wf(),
            old(self).is_finished_spec() ==> r is None && *final(self) == *old(self),
            !old(self).is_finished_spec() ==> exists|mid: Self|
                Self::flushed(*old(self), mid) && #[trigger] Self::stepped(
                    mid,
                    *final(self),
                    n as int,
                ),
            !old(self).is_finished_spec() ==> final(self).index == if old(self).index + n
                > old(self).transaction.ndays_spec() {
                old(self).transaction.ndays_spec()
            } else {
                old(self).index + n
            },
            !old(self).is_finished_spec() ==> final(self).state() == adv_state(
                old(self).transaction,
                old(self).state(),
                n as int,
            ) && final(self).transaction == old(self).transaction,
            !old(self).is_finished_spec() ==> (r is Some <==> !final(self).is_finished_spec()),
    {
        if self.is_finished() {
            return None;
        }
        if n == 0 {
            warn("stepping to the same date refreshes the buffer, which affects the present state");
        }
        self.flush();
        let ghost mid = *self;
        self.step(n);
        proof {
            assert(Self::flushed(*old(self), mid) && Self::stepped(mid, *final(self), n as int));
            lemma_advance_is_adv_state(*old(self), mid, *final(self), n as int);
        }
        if self.is_finished() {
            None
        } else {
            Some(())
        }
    }

    /// Advance exactly one day.
    pub fn next_day(&mut self) -> (r: Option<()>)
        requires
            old(self).wf(),
            !old(self).is_finished_spec() ==> old(self).flush_fits(),
        ensures
            final(self).wf(),
            old(self).is_finished_spec() ==> r is None && *final(self) == *old(self),
            !old(self).is_finished_spec() ==> exists|mid: Self|
                Self::flushed(*old(self), mid) && #[trigger] Self::stepped(mid, *final(self), 1),
            !old(self).is_finished_spec() ==> final(self).state() == sim_step(
                old(self).transaction,
                old(self).state(),
                Op::NextDay,
            ) && final(self).transaction == old(self).transaction,
            !old(self).is_finished_spec() ==> final(self).index == old(self).index + 1,
            !old(self).is_finished_spec() ==> (r is Some <==> !final(self).is_finished_spec()),
    {
        self.flush_and_step(1)
    }
}

/// The day numbers of the calendar.
pub open spec fn cal_dns(t: &Transaction) -> Seq<i64> {
    Seq::new(t.date@.len(), |d: int| t.date@[d].dn() as i64)
}

/// The calendar position `goto` lands on: the first day dated `v` or later,
/// never before the current position, capped at the calendar's end.
pub open spec fn goto_target(t: &Transaction, index: int, v: int) -> int {
    let l = lower(cal_dns(t), v, 0);
    if l < index {
        index
    } else {
        l
    }
}

/// The first calendar position at or after `j` falling on weekday index
/// `w`; the calendar's end when none does.
pub open spec fn wd_scan(t: &Transaction, j: int, w: int) -> int
    decreases t.ndays_spec() - j,
{
    if j < 0 || j >= t.ndays_spec() {
        t.ndays_spec()
    } else if t.date@[j].dn() % 7 == w {
        j
    } else {
        wd_scan(t, j + 1, w)
    }
}

/// The weekday index `next_weekday` looks for: the given one, or today's.
pub open spec fn chosen_wd_index(t: &Transaction, index: int, weekday: Option<Weekday>) -> int {
    if weekday is Some {
        weekday->0.index_spec()
    } else {
        t.date@[if index == t.ndays_spec() {
            index - 1
        } else {
            index
        }].dn() % 7
    }
}

/// The target day number `next_month` aims at: day `day` of the following
/// month, or, when that month has no such day, `day - 1` days counted from
/// its first.
pub open spec fn month_target_dn(d0: Date, day: int) -> int {
    let ny: int = if d0.month == 12 {
        d0.year + 1
    } else {
        d0.year as int
    };
    let nm: int = if d0.month == 12 {
        1
    } else {
        d0.month + 1
    };
    if day <= days_in_month(ny, nm) {
        day_number_of(ny, nm, day)
    } else {
        day_number_of(ny, nm, 1) + (day - 1)
    }
}

/// How many days `next_month` advances: one past the last day of the
/// sixty-day search window that is dated before `v`.
pub open spec fn month_steps(t: &Transaction, index: int, v: int) -> int {
    let nd = t.ndays_spec();
    let a: int = if index + 1 > nd {
        nd
    } else {
        index + 1
    };
    let b: int = if index + 61 > nd {
        nd
    } else {
        index + 61
    };
    let l = lower(cal_dns(t), v, 0);
    let la: int = if l < a {
        a
    } else {
        l
    };
    let lb: int = if la > b {
        b
    } else {
        la
    };
    lb - a + 1
}

/// How many days `next_month` advances from `index`, for the optional
/// day-of-month argument.
pub open spec fn next_month_steps(t: &Transaction, index: int, day: Option<u32>) -> int {
    let today = t.date@[index];
    let dchosen: int = if day is Some {
        day->0 as int
    } else {
        today.day as int
    };
    month_steps(t, index, month_target_dn(today, dchosen))
}

impl<'a> TransactionIterator<'a> {
    /// The calendar's day numbers, for the sorted searches.
    fn calendar_dns(&self) -> (dns: Vec<i64>)
        requires
            self.wf(),
        ensures
            dns@ == cal_dns(self.transaction),
            sorted(dns@),
    {
        let nd = self.transaction.ndays();
        let mut dns: Vec<i64> = Vec::new();
        let mut k: usize = 0;
        while k < nd
            invariant
                self.wf(),
                nd == self.transaction.ndays_spec(),
                k <= nd,
                dns@.len() == k,
                forall|l: int|
                    0 <= l < k ==> #[trigger] dns@[l] == self.transaction.date@[l].dn(),
            decreases nd - k,
        {
            dns.push(self.transaction.date[k].day_number());
            k = k + 1;
        }
        proof {
            assert(dns@ =~= cal_dns(self.transaction));
        }
        dns
    }

    /// Advance to the first calendar day dated `date` or later; past the
    /// calendar, advance to the end.
    pub fn goto(&mut self, date: Date) -> (r: Option<()>)
        requires
            old(self).wf(),
            date.valid(),
            !old(self).is_finished_spec() ==> old(self).flush_fits(),
        ensures
            final(self).wf(),
            old(self).is_finished_spec() ==> r is None && *final(self) == *old(self),
            !old(self).is_finished_spec() ==> exists|mid: Self|
                Self::flushed(*old(self), mid) && #[trigger] Self::stepped(
                    mid,
                    *final(self),
                    goto_target(old(self).transaction, old(self).index as int, date.dn())
                        - old(self).index,
                ),
            !old(self).is_finished_spec() ==> final(self).state() == sim_step(
                old(self).transaction,
                old(self).state(),
                Op::Goto { date },
            ) && final(self).transaction == old(self).transaction,
            !old(self).is_finished_spec() ==> final(self).index == goto_target(
                old(self).transaction,
                old(self).index as int,
                date.dn(),
            ),
            !old(self).is_finished_spec() ==> (r is Some <==> !final(self).is_finished_spec()),
            // past the last calendar day the iteration just finishes
            !old(self).is_finished_spec() && (forall|d: int|
                0 <= d < old(self).transaction.ndays_spec()
                    ==> #[trigger] old(self).transaction.date@[d].dn() < date.dn())
                ==> final(self).is_finished_spec() && r is None,
    {
        if self.is_finished() {
            return None;
        }
        let dns = self.calendar_dns();
        let tgt = search_from(&dns, self.index, date.day_number());
        proof {
            crate::utility::lemma_lower_props(dns@, date.dn(), 0);
        }
        let n = tgt - self.index;
        proof {
            assert(n as int == goto_target(self.transaction, self.index as int, date.dn())
                - self.index);
        }
        let r = self.flush_and_step(n);
        proof {
            let t = old(self).transaction;
            if forall|d: int| 0 <= d < t.ndays_spec() ==> #[trigger] t.date@[d].dn() < date.dn() {
                let l = lower(cal_dns(t), date.dn(), 0);
                if l < t.ndays_spec() {
                    assert(cal_dns(t)[l] >= date.dn());
                    assert(t.date@[l].dn() < date.dn());
                }
            }
        }
        r
    }

    /// Advance to the next occurrence of `weekday` (today's weekday when not
    /// given) strictly after today; when none remains, advance to the end.
    pub fn next_weekday(&mut self, weekday: Option<Weekday>) -> (r: Option<()>)
        requires
            old(self).wf(),
            old(self).transaction.ndays_spec() > 0,
            !old(self).is_finished_spec() ==> old(self).flush_fits(),
        ensures
            final(self).wf(),
            old(self).is_finished_spec() ==> r is None && *final(self) == *old(self),
            !old(self).is_finished_spec() ==> ({
                let n = wd_scan(
                    old(self).transaction,
                    old(self).index + 1,
                    chosen_wd_index(old(self).transaction, old(self).index as int, weekday),
                ) - old(self).index;
                &&& (exists|mid: Self|
                    Self::flushed(*old(self), mid) && #[trigger] Self::stepped(
                        mid,
                        *final(self),
                        n,
                    ))
                &&& final(self).state() == sim_step(
                    old(self).transaction,
                    old(self).state(),
                    Op::NextWeekday { weekday },
                )
                &&& final(self).transaction == old(self).transaction
                &&& final(self).index == old(self).index + n
            }),
            !old(self).is_finished_spec() ==> (r is Some <==> !final(self).is_finished_spec()),
    {
        let wd = match weekday {
            Some(w) => w,
            None => self.today().weekday(),
        };
        let ghost w = chosen_wd_index(self.transaction, self.index as int, weekday);
        proof {
            assert(wd.index_spec() == w);
        }
        let nd = self.transaction.ndays();
        let mut j = if self.index < nd {
            self.index + 1
        } else {
            nd
        };
        while j < nd && !weekday_matches(self.transaction, j, wd)
            invariant
                self.wf(),
                nd == self.transaction.ndays_spec(),
                self.index + 1 <= j || (self.is_finished_spec() && j == nd),
                j <= nd,
                wd.index_spec() == w,
                wd_scan(self.transaction, self.index + 1, w) == wd_scan(self.transaction, j as int, w),
            decreases nd - j,
        {
            j = j + 1;
        }
        proof {
            assert(wd_scan(self.transaction, j as int, w) == j);
        }
        let n = j - self.index;
        self.flush_and_step(n)
    }

    /// Advance to day `day` of the following month (today's day of the month
    /// when not given), snapped forward to the next trading day within a
    /// sixty-day window; a missing day of month counts forward from the
    /// month's first instead, with a diagnostic.
    #[verifier::rlimit(100)]
    #[verifier::spinoff_prover]
    pub fn next_month(&mut self, day: Option<u32>) -> (r: Option<()>)
        requires
            old(self).wf(),
            old(self).transaction.ndays_spec() > 0,
            day is Some ==> 1 <= day->0 <= 366,
            ({
                let today = old(self).transaction.date@[if old(self).is_finished_spec() {
                    old(self).index - 1
                } else {
                    old(self).index as int
                }];
                today.year <= 9000
            }),
            !old(self).is_finished_spec() ==> old(self).flush_fits(),
        ensures
            final(self).wf(),
            old(self).is_finished_spec() ==> r is None && *final(self) == *old(self),
            !old(self).is_finished_spec() ==> (exists|mid: Self|
                Self::flushed(*old(self), mid) && #[trigger] Self::stepped(
                    mid,
                    *final(self),
                    next_month_steps(old(self).transaction, old(self).index as int, day),
                )),
            !old(self).is_finished_spec() ==> final(self).state() == sim_step(
                old(self).transaction,
                old(self).state(),
                Op::NextMonth { day },
            ) && final(self).transaction == old(self).transaction,
            !old(self).is_finished_spec() ==> final(self).index == ({
                let n = next_month_steps(old(self).transaction, old(self).index as int, day);
                if old(self).index + n > old(self).transaction.ndays_spec() {
                    old(self).transaction.ndays_spec()
                } else {
                    old(self).index + n
                }
            }),
            !old(self).is_finished_spec() ==> (r is Some <==> !final(self).is_finished_spec()),
    {
        let today = self.today();
        let d: u32 = match day {
            Some(v) => v,
            None => today.day,
        };
        let target: Date = month_target(today, d);
        if self.is_finished() {
            return None;
        }
        proof {
            let dchosen: int = if day is Some {
                day->0 as int
            } else {
                today.day as int
            };
            assert(target.dn() == month_target_dn(today, dchosen));
        }
        let dns = self.calendar_dns();
        let nd = self.transaction.ndays();
        let a = if self.index + 1 > nd {
            nd
        } else {
            self.index + 1
        };
        let b = if nd - self.index > 61 {
            self.index + 61
        } else {
            nd
        };
        let la = search_from(&dns, a, target.day_number());
        let lb = if la > b {
            b
        } else {
            la
        };
        let n = lb - a + 1;
        proof {
            crate::utility::lemma_lower_props(dns@, target.dn(), 0);
            assert(n as int == month_steps(self.transaction, self.index as int, target.dn()));
            let today_s = self.transaction.date@[self.index as int];
            let dchosen: int = if day is Some {
                day->0 as int
            } else {
                today_s.day as int
            };
            assert(today == today_s);
            assert(d as int == dchosen);
            assert(target.dn() == month_target_dn(today_s, dchosen));
            assert(n as int == month_steps(
                self.transaction,
                self.index as int,
                month_target_dn(today_s, dchosen),
            ));
            assert(n as int == next_month_steps(self.transaction, self.index as int, day));
        }
        self.flush_and_step(n)
    }
}

/// The date `next_month` aims at: day `d` of the month after `today`, or,
/// when that month is too short, `d - 1` days counted from its first, with a
/// diagnostic.
#[verifier::rlimit(100)]
fn month_target(today: Date, d: u32) -> (t: Date)
    requires
        today.valid(),
        today.year <= 9000,
        1 <= d <= 366,
    ensures
        t.valid(),
        t.dn() == month_target_dn(today, d as int),
{
    let (ny, nm): (u32, u32) = if today.month == 12 {
        (today.year + 1, 1)
    } else {
        (today.year, today.month + 1)
    };
    match Date::from_ymd(ny, nm, d) {
        Some(t) => t,
        None => {
            let first = match Date::from_ymd(ny, nm, 1) {
                Some(f) => f,
                None => vstd::pervasive::unreached(),
            };
            warn("day is out of range for the following month, counting from its first day");
            proof {
                assert(first.dn() + (d - 1) <= day_number_of(9999, 12, 31)) by {
                    vstd::arithmetic::mul::lemma_mul_inequality(ny as int - 1, 9001, 365);
                    vstd::arithmetic::div_mod::lemma_div_is_ordered(ny as int - 1, 9001, 4);
                    vstd::arithmetic::div_mod::lemma_div_is_ordered(ny as int - 1, 9001, 400);
                    vstd::arithmetic::div_mod::lemma_div_pos_is_pos(ny as int - 1, 100);
                }
            }
            match first.add_days(d - 1) {
                Some(t) => t,
                None => vstd::pervasive::unreached(),
            }
        },
    }
}

/// The calendar day `j` falls on weekday `wd`.
fn weekday_matches(t: &Transaction, j: usize, wd: Weekday) -> (b: bool)
    requires
        t.wf(),
        j < t.ndays_spec(),
    ensures
        b == (t.date@[j as int].dn() % 7 == wd.index_spec()),
{
    t.date[j].weekday() == wd
}

/// The recorder's cash comment buffer gained a note; nothing else of the
/// recorder changed, and absent recorders stay absent.
pub open spec fn record_cash_commented(
    pre: Option<IterRecord>,
    post: Option<IterRecord>,
    c: Seq<char>,
) -> bool {
    match pre {
        None => post is None,
        Some(orec) => match post {
            None => false,
            Some(nrec) => {
                &&& nrec.cash_comment_buffer@ == join2(orec.cash_comment_buffer@, c)
                &&& nrec.investments == orec.investments
                &&& nrec.fund_comment_buffer == orec.fund_comment_buffer
                &&& nrec.cash_record == orec.cash_record
                &&& nrec.fund_records == orec.fund_records
            },
        },
    }
}

/// The recorder booked `delta` on asset `fund` and gained a note in that
/// asset's comment buffer; nothing else changed.
pub open spec fn record_fund_commented(
    pre: Option<IterRecord>,
    post: Option<IterRecord>,
    fund: int,
    delta: int,
    c: Seq<char>,
) -> bool {
    match pre {
        None => post is None,
        Some(orec) => match post {
            None => false,
            Some(nrec) => {
                &&& nrec.investments@ == orec.investments@.update(
                    fund,
                    (orec.investments@[fund] + delta) as i64,
                )
                &&& nrec.cash_comment_buffer == orec.cash_comment_buffer
                &&& nrec.fund_comment_buffer@.len() == orec.fund_comment_buffer@.len()
                &&& nrec.fund_comment_buffer@[fund]@ == join2(
                    orec.fund_comment_buffer@[fund]@,
                    c,
                )
                &&& (forall|k: int|
                    0 <= k < orec.fund_comment_buffer@.len() && k != fund
                        ==> #[trigger] nrec.fund_comment_buffer@[k]
                        == orec.fund_comment_buffer@[k])
                &&& nrec.cash_record == orec.cash_record
                &&& nrec.fund_records == orec.fund_records
            },
        },
    }
}

impl<'a> TransactionIterator<'a> {
    /// [`Self::inflow`], with a note joined into the day's cash comment.
    pub fn inflow_comment(&mut self, amount: i64, comment: &str) -> (r: Result<
        (),
        TransactionError,
    >)
        requires
            old(self).wf(),
        ensures
            final(self).wf(),
            final(self).state() == sim_step(
                old(self).transaction,
                old(self).state(),
                Op::Inflow { amount },
            ),
            old(self).is_finished_spec() ==> r == Err::<(), TransactionError>(
                TransactionError::Finished,
            ) && *final(self) == *old(self),
            !old(self).is_finished_spec() && !fits64(old(self).state().buffer_cash + amount) ==> r
                == Err::<(), TransactionError>(TransactionError::Overflow) && *final(self) == *old(
                self,
            ),
            !old(self).is_finished_spec() && fits64(old(self).state().buffer_cash + amount) ==> ({
                &&& r == Ok::<(), TransactionError>(())
                &&& final(self).state() == (SimState {
                    buffer_cash: old(self).state().buffer_cash + amount,
                    ..old(self).state()
                })
                &&& final(self).transaction == old(self).transaction
                &&& final(self).iter_log == old(self).iter_log
                &&& record_cash_commented(
                    old(self).iter_record,
                    final(self).iter_record,
                    comment@,
                )
            }),
    {
        let res = self.inflow(amount);
        match res {
            Err(e) => {
                return Err(e);
            },
            Ok(()) => {},
        }
        let mut rec_opt: Option<IterRecord> = None;
        std::mem::swap(&mut rec_opt, &mut self.iter_record);
        match rec_opt {
            Some(mut rec) => {
                let mut buf = String::new();
                std::mem::swap(&mut buf, &mut rec.cash_comment_buffer);
                rec.cash_comment_buffer = join_str(buf, comment);
                self.iter_record = Some(rec);
            },
            None => {},
        }
        Ok(())
    }

    /// [`Self::buy`], with a note joined into the day's comment for that
    /// asset.
    pub fn buy_comment(&mut self, fundid: usize, investment: i64, fee: i64, comment: &str) -> (r:
        Result<(), TransactionError>)
        requires
            old(self).wf(),
            fundid < old(self).transaction.nfunds_spec(),
            old(self).iter_record is Some && !old(self).is_finished_spec() && !buy_overflow(
                old(self).transaction,
                old(self).state(),
                fundid as int,
                investment as int,
                fee as int,
            ) ==> fits64(old(self).iter_record->0.investments@[fundid as int] + investment),
        ensures
            final(self).wf(),
            final(self).state() == sim_step(
                old(self).transaction,
                old(self).state(),
                Op::Buy { fund: fundid as int, investment, fee },
            ),
            old(self).is_finished_spec() ==> r == Err::<(), TransactionError>(
                TransactionError::Finished,
            ) && *final(self) == *old(self),
            !old(self).is_finished_spec() && buy_overflow(
                old(self).transaction,
                old(self).state(),
                fundid as int,
                investment as int,
                fee as int,
            ) ==> r == Err::<(), TransactionError>(TransactionError::Overflow) && *final(self)
                == *old(self),
            !old(self).is_finished_spec() && !buy_overflow(
                old(self).transaction,
                old(self).state(),
                fundid as int,
                investment as int,
                fee as int,
            ) ==> ({
                let c = old(self).state();
                let delta = buy_delta(
                    old(self).transaction,
                    c,
                    fundid as int,
                    investment as int,
                    fee as int,
                );
                &&& r == Ok::<(), TransactionError>(())
                &&& final(self).state() == (SimState {
                    buffer_cash: c.buffer_cash - investment,
                    buffer_shares: c.buffer_shares.update(
                        fundid as int,
                        c.buffer_shares[fundid as int] + delta,
                    ),
                    ..c
                })
                &&& final(self).transaction == old(self).transaction
                &&& final(self).iter_log == old(self).iter_log
                &&& record_fund_commented(
                    old(self).iter_record,
                    final(self).iter_record,
                    fundid as int,
                    investment as int,
                    comment@,
                )
            }),
    {
        let res = self.buy(fundid, investment, fee);
        match res {
            Err(e) => {
                return Err(e);
            },
            Ok(()) => {},
        }
        let mut rec_opt: Option<IterRecord> = None;
        std::mem::swap(&mut rec_opt, &mut self.iter_record);
        match rec_opt {
            Some(mut rec) => {
                let mut buf = String::new();
                let ghost before = rec.fund_comment_buffer@;
                std::mem::swap(&mut buf, &mut rec.fund_comment_buffer[fundid]);
                let joined = join_str(buf, comment);
                rec.fund_comment_buffer.set(fundid, joined);
                proof {
                    assert forall|k: int| 0 <= k < before.len() && k != fundid as int
                        implies #[trigger] rec.fund_comment_buffer@[k] == before[k] by {}
                }
                self.iter_record = Some(rec);
            },
            None => {},
        }
        Ok(())
    }

    /// [`Self::sell`], with a note joined into the day's comment for that
    /// asset.
    pub fn sell_comment(&mut self, fundid: usize, share: i64, fee: i64, comment: &str) -> (r:
        Result<(), TransactionError>)
        requires
            old(self).wf(),
            fundid < old(self).transaction.nfunds_spec(),
            old(self).iter_record is Some && !old(self).is_finished_spec() && !sell_overflow(
                old(self).transaction,
                old(self).state(),
                fundid as int,
                share as int,
                fee as int,
            ) ==> fits64(
                old(self).iter_record->0.investments@[fundid as int] - sell_income(
                    old(self).transaction,
                    old(self).state(),
                    fundid as int,
                    share as int,
                    fee as int,
                ),
            ),
        ensures
            final(self).wf(),
            final(self).state() == sim_step(
                old(self).transaction,
                old(self).state(),
                Op::Sell { fund: fundid as int, share, fee },
            ),
            old(self).is_finished_spec() ==> r == Err::<(), TransactionError>(
                TransactionError::Finished,
            ) && *final(self) == *old(self),
            !old(self).is_finished_spec() && sell_overflow(
                old(self).transaction,
                old(self).state(),
                fundid as int,
                share as int,
                fee as int,
            ) ==> r == Err::<(), TransactionError>(TransactionError::Overflow) && *final(self)
                == *old(self),
            !old(self).is_finished_spec() && !sell_overflow(
                old(self).transaction,
                old(self).state(),
                fundid as int,
                share as int,
                fee as int,
            ) ==> ({
                let c = old(self).state();
                let income = sell_income(
                    old(self).transaction,
                    c,
                    fundid as int,
                    share as int,
                    fee as int,
                );
                &&& r == Ok::<(), TransactionError>(())
                &&& final(self).state() == (SimState {
                    buffer_cash: c.buffer_cash + income,
                    buffer_shares: c.buffer_shares.update(
                        fundid as int,
                        c.buffer_shares[fundid as int] - share,
                    ),
                    ..c
                })
                &&& final(self).transaction == old(self).transaction
                &&& final(self).iter_log == old(self).iter_log
                &&& record_fund_commented(
                    old(self).iter_record,
                    final(self).iter_record,
                    fundid as int,
                    -income,
                    comment@,
                )
            }),
    {
        let res = self.sell(fundid, share, fee);
        match res {
            Err(e) => {
                return Err(e);
            },
            Ok(()) => {},
        }
        let mut rec_opt: Option<IterRecord> = None;
        std::mem::swap(&mut rec_opt, &mut self.iter_record);
        match rec_opt {
            Some(mut rec) => {
                let mut buf = String::new();
                let ghost before = rec.fund_comment_buffer@;
                std::mem::swap(&mut buf, &mut rec.fund_comment_buffer[fundid]);
                let joined = join_str(buf, comment);
                rec.fund_comment_buffer.set(fundid, joined);
                proof {
                    assert forall|k: int| 0 <= k < before.len() && k != fundid as int
                        implies #[trigger] rec.fund_comment_buffer@[k] == before[k] by {}
                }
                self.iter_record = Some(rec);
            },
            None => {},
        }
        Ok(())
    }
}

/// Sum of the committed shares times the given day's navs, walked over the
/// first `k` assets.
pub open spec fn sum_products(t: &Transaction, shares: Seq<int>, row: int, k: int) -> int
    decreases k,
{
    if k <= 0 {
        0
    } else {
        sum_products(t, shares, row, k - 1) + shares[k - 1] * (t.nav_at(row, k - 1) as int)
    }
}

impl<'a> TransactionIterator<'a> {
    /// The asset value of asset `idx` at the beginning of the day: its
    /// committed shares at the previous day's nav, zero on day zero.
    pub open spec fn fund_asset_of(&self, idx: int) -> int {
        if self.index == 0 {
            0
        } else {
            dtr(
                self.state().status_shares[idx] * (self.transaction.nav_at(
                    self.index - 1,
                    idx,
                ) as int),
                FIXED_SCALE as int,
            )
        }
    }

    /// The total asset at the beginning of the day: all committed shares at
    /// the previous day's navs plus the committed cash, zero on day zero.
    pub open spec fn asset_of(&self) -> int {
        if self.index == 0 {
            0
        } else {
            dtr(
                sum_products(
                    self.transaction,
                    self.state().status_shares,
                    self.index - 1,
                    self.transaction.nfunds_spec(),
                ),
                FIXED_SCALE as int,
            ) + self.state().status_cash
        }
    }

    /// Every prefix of the asset sum stays within the guarded range, and the
    /// result fits the fixed-point range.
    pub open spec fn asset_fits(&self) -> bool {
        &&& forall|k: int|
            0 <= k <= self.transaction.nfunds_spec() ==> absi(
                #[trigger] sum_products(
                    self.transaction,
                    self.state().status_shares,
                    self.index - 1,
                    k,
                ),
            ) < 0x20000000000000000000000000000000
        &&& fits64(self.asset_of())
    }

    /// Asset value of asset `idx` at the beginning of the day.
    pub fn fund_asset(&self, idx: usize) -> (v: i64)
        requires
            self.wf(),
            idx < self.transaction.nfunds_spec(),
            fits64(self.fund_asset_of(idx as int)),
        ensures
            v as int == self.fund_asset_of(idx as int),
    {
        if self.index == 0 {
            0
        } else {
            let nav = self.transaction.nav(self.index - 1, idx);
            let sh = self.iter_status.shares[idx];
            proof {
                crate::numeric::lemma_abs_mul(
                    sh as int,
                    nav as int,
                    0x8000000000000000,
                    0x8000000000000000,
                );
            }
            let v = crate::numeric::div_q((sh as i128) * (nav as i128), FIXED_SCALE as i128);
            v as i64
        }
    }

    /// Total asset at the beginning of the day.
    pub fn asset(&self) -> (v: i64)
        requires
            self.wf(),
            self.asset_fits(),
        ensures
            v as int == self.asset_of(),
            v as int == asset_of_state(self.transaction, self.state()),
    {
        if self.index == 0 {
            return 0;
        }
        let nf = self.transaction.nfunds();
        let row = self.index - 1;
        let mut acc: i128 = 0;
        let mut k: usize = 0;
        while k < nf
            invariant
                self.wf(),
                self.asset_fits(),
                0 < self.index <= self.transaction.ndays_spec(),
                row == self.index - 1,
                nf == self.transaction.nfunds_spec(),
                k <= nf,
                acc as int == sum_products(
                    self.transaction,
                    self.state().status_shares,
                    row as int,
                    k as int,
                ),
            decreases nf - k,
        {
            let nav = self.transaction.nav(row, k);
            let sh = self.iter_status.shares[k];
            proof {
                crate::numeric::lemma_abs_mul(
                    sh as int,
                    nav as int,
                    0x8000000000000000,
                    0x8000000000000000,
                );
                assert(absi(sum_products(
                    self.transaction,
                    self.state().status_shares,
                    row as int,
                    k as int,
                )) < 0x20000000000000000000000000000000);
                assert(absi(sum_products(
                    self.transaction,
                    self.state().status_shares,
                    row as int,
                    k + 1,
                )) < 0x20000000000000000000000000000000);
            }
            acc = acc + (sh as i128) * (nav as i128);
            k = k + 1;
        }
        let total = crate::numeric::div_q(acc, FIXED_SCALE as i128) + (self.iter_status.cash
            as i128);
        proof {
            assert(fits64(self.asset_of()));
        }
        total as i64
    }

    /// The dates iterated so far.
    pub fn dates(&self) -> (r: Vec<Date>)
        requires
            self.wf(),
        ensures
            r@ == self.transaction.date@.subrange(0, self.index as int),
    {
        let mut r: Vec<Date> = Vec::new();
        let mut k: usize = 0;
        while k < self.index
            invariant
                self.wf(),
                k <= self.index <= self.transaction.ndays_spec(),
                r@.len() == k,
                forall|l: int| 0 <= l < k ==> #[trigger] r@[l] == self.transaction.date@[l],
            decreases self.index - k,
        {
            r.push(self.transaction.date[k]);
            k = k + 1;
        }
        proof {
            assert(r@ =~= self.transaction.date@.subrange(0, self.index as int));
        }
        r
    }

    /// The nav rows iterated so far, row-major.
    pub fn navs(&self) -> (r: Vec<i64>)
        requires
            self.wf(),
        ensures
            r@ == self.transaction.navs@.subrange(
                0,
                self.index * self.transaction.nfunds_spec(),
            ),
    {
        let nf = self.transaction.nfunds();
        let total = self.transaction.navs.len();
        proof {
            vstd::arithmetic::mul::lemma_mul_inequality(
                self.index as int,
                self.transaction.ndays_spec(),
                nf as int,
            );
            assert(self.index * nf <= total);
        }
        let upto = self.index * nf;
        let mut r: Vec<i64> = Vec::new();
        let mut p: usize = 0;
        while p < upto
            invariant
                self.wf(),
                nf == self.transaction.nfunds_spec(),
                upto == self.index * nf,
                upto <= self.transaction.navs@.len(),
                p <= upto,
                r@.len() == p,
                forall|l: int| 0 <= l < p ==> #[trigger] r@[l] == self.transaction.navs@[l],
            decreases upto - p,
        {
            r.push(self.transaction.navs[p]);
            p = p + 1;
        }
        proof {
            assert(r@ =~= self.transaction.navs@.subrange(
                0,
                self.index * self.transaction.nfunds_spec(),
            ));
        }
        r
    }

    /// The committed cash of every day iterated so far, when logging.
    pub fn cash_log(&self) -> (r: Option<Vec<i64>>)
        requires
            self.wf(),
        ensures
            r is Some <==> self.iter_log is Some,
            r is Some ==> r->0@ == self.iter_log->0.cash@.subrange(0, self.index as int),
    {
        match &self.iter_log {
            None => None,
            Some(log) => {
                let mut r: Vec<i64> = Vec::new();
                let mut k: usize = 0;
                while k < self.index
                    invariant
                        self.wf(),
                        self.iter_log is Some,
                        log == self.iter_log->0,
                        k <= self.index <= self.transaction.ndays_spec(),
                        log.cash@.len() == self.transaction.ndays_spec(),
                        r@.len() == k,
                        forall|l: int| 0 <= l < k ==> #[trigger] r@[l] == log.cash@[l],
                    decreases self.index - k,
                {
                    r.push(log.cash[k]);
                    k = k + 1;
                }
                proof {
                    assert(r@ =~= self.iter_log->0.cash@.subrange(0, self.index as int));
                }
                Some(r)
            },
        }
    }

    /// The committed shares of asset `idx` of every day iterated so far,
    /// when logging.
    pub fn share_log(&self, idx: usize) -> (r: Option<Vec<i64>>)
        requires
            self.wf(),
            idx < self.transaction.nfunds_spec(),
        ensures
            r is Some <==> self.iter_log is Some,
            r is Some ==> r->0@.len() == self.index,
            r is Some ==> forall|d: int|
                0 <= d < self.index ==> #[trigger] r->0@[d] == self.iter_log->0.shares@[flat(
                    d,
                    idx as int,
                    self.transaction.nfunds_spec(),
                )],
    {
        match &self.iter_log {
            None => None,
            Some(log) => {
                let nf = self.transaction.nfunds();
                let nd = self.transaction.ndays();
                let mut r: Vec<i64> = Vec::new();
                let mut k: usize = 0;
                while k < self.index
                    invariant
                        self.wf(),
                        self.iter_log is Some,
                        log == self.iter_log->0,
                        nf == self.transaction.nfunds_spec(),
                        nd == self.transaction.ndays_spec(),
                        idx < nf,
                        k <= self.index <= nd,
                        log.shares@.len() == nd * nf,
                        r@.len() == k,
                        forall|l: int|
                            0 <= l < k ==> #[trigger] r@[l] == log.shares@[flat(
                                l,
                                idx as int,
                                nf as int,
                            )],
                    decreases self.index - k,
                {
                    proof {
                        lemma_flat_index(k as int, idx as int, nd as int, nf as int);
                    }
                    let slen = log.shares.len();
                    proof {
                        assert(k * nf + idx < slen);
                    }
                    r.push(log.shares[k * nf + idx]);
                    k = k + 1;
                }
                Some(r)
            },
        }
    }
}

/// The chain of pairwise merges that the combined ledger performs: an empty
/// ledger merged with the cash ledger, then with each asset's ledger in
/// turn.
pub open spec fn chain_model(cash: Seq<MergeEntry>, funds: Seq<Seq<MergeEntry>>, k: int) -> Seq<
    MergeEntry,
>
    decreases k + 1,
{
    if k <= 0 {
        merge_model(Seq::empty(), cash, 0, 0, 0, 0)
    } else {
        merge_model(chain_model(cash, funds, k - 1), funds[k - 1], 0, 0, 0, 0)
    }
}

impl<'a> TransactionIterator<'a> {
    /// The cash ledger, when recording.
    pub fn cash_record(&self) -> (r: Option<&ConciseRecord>)
        ensures
            r is Some <==> self.iter_record is Some,
            r is Some ==> *r->0 == self.iter_record->0.cash_record,
    {
        match &self.iter_record {
            Some(rec) => Some(&rec.cash_record),
            None => None,
        }
    }

    /// The detailed ledger of asset `idx`, when recording.
    pub fn fund_record(&self, idx: usize) -> (r: Option<&DetailedRecord>)
        requires
            self.wf(),
            idx < self.transaction.nfunds_spec(),
        ensures
            r is Some <==> self.iter_record is Some,
            r is Some ==> *r->0 == self.iter_record->0.fund_records@[idx as int],
    {
        match &self.iter_record {
            Some(rec) => Some(&rec.fund_records[idx]),
            None => None,
        }
    }

    /// The abstract ledgers the combined merge folds over: the cash ledger's
    /// entries and each asset ledger's entries.
    pub open spec fn chain_inputs(&self) -> (Seq<MergeEntry>, Seq<Seq<MergeEntry>>) {
        let rec = self.iter_record->0;
        (
            abs_entries(rec.cash_record@),
            Seq::new(
                rec.fund_records@.len(),
                |k: int| abs_detailed(rec.fund_records@[k]@),
            ),
        )
    }

    /// Every step of the combined merge fits the fixed-point range and stays
    /// within length bounds.
    pub open spec fn combined_fits(&self) -> bool {
        let (cash, funds) = self.chain_inputs();
        let nf = self.transaction.nfunds_spec();
        &&& cash.len() < 0x4000_0000_0000_0000
        &&& (forall|k: int|
            0 <= k < nf ==> (#[trigger] funds[k]).len() < 0x4000_0000_0000_0000)
        &&& (forall|k: int|
            0 <= k <= nf ==> (#[trigger] chain_model(cash, funds, k)).len()
                < 0x4000_0000_0000_0000)
        &&& merged_fits(merge_model(Seq::empty(), cash, 0, 0, 0, 0))
        &&& (forall|j: int|
            0 <= j < nf ==> merged_fits(
                #[trigger] merge_model(chain_model(cash, funds, j), funds[j], 0, 0, 0, 0),
            ))
    }

    /// The combined ledger, when recording: the cash ledger and every
    /// asset's ledger merged date-wise into one.
    pub fn record(&self) -> (r: Option<ConciseRecord>)
        requires
            self.wf(),
            self.iter_record is Some ==> self.combined_fits(),
        ensures
            r is Some <==> self.iter_record is Some,
            r is Some ==> r->0.wf() && merge_matches(
                r->0@,
                chain_model(
                    self.chain_inputs().0,
                    self.chain_inputs().1,
                    self.transaction.nfunds_spec(),
                ),
            ),
    {
        match &self.iter_record {
            None => None,
            Some(rec) => {
                let ghost cash = self.chain_inputs().0;
                let ghost fundsm = self.chain_inputs().1;
                let nf = self.transaction.nfunds();
                let empty = ConciseRecord::new("Combined Record", "");
                proof {
                    assert(abs_entries(empty@) =~= Seq::<MergeEntry>::empty());
                    assert(abs_entries(rec.cash_record@) == cash);
                }
                let mut res = merge_records(&empty, &rec.cash_record);
                proof {
                    assert(abs_entries(res@) =~= chain_model(cash, fundsm, 0)) by {
                        assert(merge_matches(res@, chain_model(cash, fundsm, 0)));
                    }
                }
                let mut k: usize = 0;
                while k < nf
                    invariant
                        self.wf(),
                        self.iter_record is Some,
                        rec == self.iter_record->0,
                        self.combined_fits(),
                        cash == self.chain_inputs().0,
                        fundsm == self.chain_inputs().1,
                        nf == self.transaction.nfunds_spec(),
                        k <= nf,
                        res.wf(),
                        merge_matches(res@, chain_model(cash, fundsm, k as int)),
                        abs_entries(res@) == chain_model(cash, fundsm, k as int),
                    decreases nf - k,
                {
                    let conc = ConciseRecord::from(self.fund_record(k).unwrap());
                    proof {
                        assert((self.iter_record->0.fund_records@[k as int]).wf());
                        assert(conc.wf());
                        assert(abs_entries(conc@) =~= fundsm[k as int]);
                        assert(merged_fits(merge_model(
                            chain_model(cash, fundsm, k as int),
                            fundsm[k as int],
                            0,
                            0,
                            0,
                            0,
                        )));
                        assert(chain_model(cash, fundsm, k as int).len()
                            < 0x4000_0000_0000_0000);
                        assert(fundsm[k as int].len() < 0x4000_0000_0000_0000);
                        assert(res@.len() == chain_model(cash, fundsm, k as int).len());
                        assert(conc@.len() == fundsm[k as int].len());
                    }
                    let merged = merge_records(&res, &conc);
                    proof {
                        assert(merge_matches(merged@, chain_model(cash, fundsm, k + 1)));
                        assert(abs_entries(merged@) =~= chain_model(cash, fundsm, k + 1));
                    }
                    res = merged;
                    k = k + 1;
                }
                Some(res)
            },
        }
    }
}

/// Sum of one log row's shares times that day's navs, over the first `k`
/// assets.
pub open spec fn row_products(t: &Transaction, shares: Seq<i64>, d: int, k: int) -> int
    decreases k,
{
    if k <= 0 {
        0
    } else {
        row_products(t, shares, d, k - 1) + (shares[flat(d, k - 1, t.nfunds_spec())] as int) * (
        t.nav_at(d, k - 1) as int)
    }
}

impl<'a> TransactionIterator<'a> {
    /// The asset value of asset `idx` on logged day `d`.
    pub open spec fn fund_asset_log_at(&self, idx: int, d: int) -> int {
        dtr(
            (self.iter_log->0.shares@[flat(d, idx, self.transaction.nfunds_spec())] as int) * (
            self.transaction.nav_at(d, idx) as int),
            FIXED_SCALE as int,
        )
    }

    /// The asset value of asset `idx` of every day iterated so far, when
    /// logging.
    pub fn fund_asset_log(&self, idx: usize) -> (r: Option<Vec<i64>>)
        requires
            self.wf(),
            idx < self.transaction.nfunds_spec(),
            self.iter_log is Some ==> forall|d: int|
                0 <= d < self.index ==> fits64(#[trigger] self.fund_asset_log_at(idx as int, d)),
        ensures
            r is Some <==> self.iter_log is Some,
            r is Some ==> r->0@.len() == self.index,
            r is Some ==> forall|d: int|
                0 <= d < self.index ==> #[trigger] r->0@[d] as int == self.fund_asset_log_at(
                    idx as int,
                    d,
                ),
    {
        match &self.iter_log {
            None => None,
            Some(log) => {
                let nf = self.transaction.nfunds();
                let nd = self.transaction.ndays();
                let mut r: Vec<i64> = Vec::new();
                let mut k: usize = 0;
                while k < self.index
                    invariant
                        self.wf(),
                        self.iter_log is Some,
                        log == self.iter_log->0,
                        forall|d: int|
                            0 <= d < self.index ==> fits64(
                                #[trigger] self.fund_asset_log_at(idx as int, d),
                            ),
                        nf == self.transaction.nfunds_spec(),
                        nd == self.transaction.ndays_spec(),
                        idx < nf,
                        k <= self.index <= nd,
                        log.shares@.len() == nd * nf,
                        r@.len() == k,
                        forall|d: int|
                            0 <= d < k ==> #[trigger] r@[d] as int == self.fund_asset_log_at(
                                idx as int,
                                d,
                            ),
                    decreases self.index - k,
                {
                    proof {
                        lemma_flat_index(k as int, idx as int, nd as int, nf as int);
                    }
                    let slen = log.shares.len();
                    proof {
                        assert(k * nf + idx < slen);
                    }
                    let sh = log.shares[k * nf + idx];
                    let nav = self.transaction.nav(k, idx);
                    proof {
                        crate::numeric::lemma_abs_mul(
                            sh as int,
                            nav as int,
                            0x8000000000000000,
                            0x8000000000000000,
                        );
                        assert(fits64(self.fund_asset_log_at(idx as int, k as int)));
                    }
                    let v = crate::numeric::div_q(
                        (sh as i128) * (nav as i128),
                        FIXED_SCALE as i128,
                    );
                    r.push(v as i64);
                    k = k + 1;
                }
                Some(r)
            },
        }
    }

    /// The total asset on logged day `d`.
    pub open spec fn asset_log_at(&self, d: int) -> int {
        dtr(
            row_products(
                self.transaction,
                self.iter_log->0.shares@,
                d,
                self.transaction.nfunds_spec(),
            ),
            FIXED_SCALE as int,
        ) + self.iter_log->0.cash@[d]
    }

    /// Every prefix of every logged day's asset sum stays within the guarded
    /// range, and every day's total fits the fixed-point range.
    pub open spec fn asset_log_fits(&self) -> bool {
        &&& (forall|d: int, k: int|
            0 <= d < self.index && 0 <= k <= self.transaction.nfunds_spec() ==> absi(
                #[trigger] row_products(self.transaction, self.iter_log->0.shares@, d, k),
            ) < 0x20000000000000000000000000000000)
        &&& (forall|d: int|
            0 <= d < self.index ==> fits64(#[trigger] self.asset_log_at(d)))
    }

    /// The total asset of every day iterated so far, when logging.
    pub fn asset_log(&self) -> (r: Option<Vec<i64>>)
        requires
            self.wf(),
            self.iter_log is Some ==> self.asset_log_fits(),
        ensures
            r is Some <==> self.iter_log is Some,
            r is Some ==> r->0@.len() == self.index,
            r is Some ==> forall|d: int|
                0 <= d < self.index ==> #[trigger] r->0@[d] as int == self.asset_log_at(d),
    {
        match &self.iter_log {
            None => None,
            Some(log) => {
                let nf = self.transaction.nfunds();
                let nd = self.transaction.ndays();
                let mut r: Vec<i64> = Vec::new();
                let mut d: usize = 0;
                while d < self.index
                    invariant
                        self.wf(),
                        self.iter_log is Some,
                        self.asset_log_fits(),
                        log == self.iter_log->0,
                        nf == self.transaction.nfunds_spec(),
                        nd == self.transaction.ndays_spec(),
                        d <= self.index <= nd,
                        log.shares@.len() == nd * nf,
                        log.cash@.len() == nd,
                        r@.len() == d,
                        forall|l: int|
                            0 <= l < d ==> #[trigger] r@[l] as int == self.asset_log_at(l),
                    decreases self.index - d,
                {
                    let mut acc: i128 = 0;
                    let mut k: usize = 0;
                    while k < nf
                        invariant
                            self.wf(),
                            self.iter_log is Some,
                            self.asset_log_fits(),
                            log == self.iter_log->0,
                            nf == self.transaction.nfunds_spec(),
                            nd == self.transaction.ndays_spec(),
                            d < self.index <= nd,
                            k <= nf,
                            log.shares@.len() == nd * nf,
                            acc as int == row_products(
                                self.transaction,
                                log.shares@,
                                d as int,
                                k as int,
                            ),
                        decreases nf - k,
                    {
                        proof {
                            lemma_flat_index(d as int, k as int, nd as int, nf as int);
                        }
                        let slen = log.shares.len();
                        proof {
                            assert(d * nf + k < slen);
                        }
                        let sh = log.shares[d * nf + k];
                        let nav = self.transaction.nav(d, k);
                        proof {
                            crate::numeric::lemma_abs_mul(
                                sh as int,
                                nav as int,
                                0x8000000000000000,
                                0x8000000000000000,
                            );
                            assert(absi(row_products(
                                self.transaction,
                                log.shares@,
                                d as int,
                                k as int,
                            )) < 0x20000000000000000000000000000000);
                            assert(absi(row_products(
                                self.transaction,
                                log.shares@,
                                d as int,
                                k + 1,
                            )) < 0x20000000000000000000000000000000);
                        }
                        acc = acc + (sh as i128) * (nav as i128);
                        k = k + 1;
                    }
                    proof {
                        assert(fits64(self.asset_log_at(d as int)));
                    }
                    let v = crate::numeric::div_q(acc, FIXED_SCALE as i128) + (log.cash[d]
                        as i128);
                    r.push(v as i64);
                    d = d + 1;
                }
                Some(r)
            },
        }
    }
}

/// A strategy-visible operation of the iterator.
pub ghost enum Op {
    Inflow { amount: i64 },
    Buy { fund: int, investment: i64, fee: i64 },
    Sell { fund: int, share: i64, fee: i64 },
    NextDay,
    NextWeekday { weekday: Option<Weekday> },
    Goto { date: Date },
    NextMonth { day: Option<u32> },
}

/// The flush-then-step transition on the simulation state, `n` days.
pub open spec fn adv_state(t: &Transaction, c: SimState, n: int) -> SimState {
    if c.index == t.ndays_spec() {
        c
    } else {
        SimState {
            index: if c.index + n > t.ndays_spec() {
                t.ndays_spec()
            } else {
                c.index + n
            },
            buffer_cash: 0,
            buffer_shares: Seq::new(c.buffer_shares.len(), |k: int| 0),
            status_cash: c.status_cash + c.buffer_cash,
            status_shares: Seq::new(
                c.status_shares.len(),
                |k: int| c.status_shares[k] + c.buffer_shares[k],
            ),
        }
    }
}

/// The transition of one operation on the simulation-arithmetic state: the
/// very transitions the executable operations ensure, written over the
/// snapshot and the state alone.  Neither the logging nor the recording
/// add-on occurs in it.
pub open spec fn sim_step(t: &Transaction, c: SimState, op: Op) -> SimState {
    match op {
        Op::Inflow { amount } => if c.index == t.ndays_spec() || !fits64(c.buffer_cash + amount) {
            c
        } else {
            SimState { buffer_cash: c.buffer_cash + amount, ..c }
        },
        Op::Buy { fund, investment, fee } => if c.index == t.ndays_spec() || buy_overflow(
            t,
            c,
            fund,
            investment as int,
            fee as int,
        ) {
            c
        } else {
            SimState {
                buffer_cash: c.buffer_cash - investment,
                buffer_shares: c.buffer_shares.update(
                    fund,
                    c.buffer_shares[fund] + buy_delta(t, c, fund, investment as int, fee as int),
                ),
                ..c
            }
        },
        Op::Sell { fund, share, fee } => if c.index == t.ndays_spec() || sell_overflow(
            t,
            c,
            fund,
            share as int,
            fee as int,
        ) {
            c
        } else {
            SimState {
                buffer_cash: c.buffer_cash + sell_income(t, c, fund, share as int, fee as int),
                buffer_shares: c.buffer_shares.update(fund, c.buffer_shares[fund] - share),
                ..c
            }
        },
        Op::NextDay => adv_state(t, c, 1),
        Op::NextWeekday { weekday } => adv_state(
            t,
            c,
            wd_scan(t, c.index + 1, chosen_wd_index(t, c.index, weekday)) - c.index,
        ),
        Op::Goto { date } => adv_state(t, c, goto_target(t, c.index, date.dn()) - c.index),
        Op::NextMonth { day } => adv_state(t, c, next_month_steps(t, c.index, day)),
    }
}

/// The simulation state after replaying a sequence of operations.
pub open spec fn replay(t: &Transaction, c: SimState, ops: Seq<Op>) -> SimState
    decreases ops.len(),
{
    if ops.len() == 0 {
        c
    } else {
        replay(t, sim_step(t, c, ops[0]), ops.drop_first())
    }
}

/// The total asset a simulation state shows: all committed shares at the
/// previous day's navs plus the committed cash, zero on day zero.
pub open spec fn asset_of_state(t: &Transaction, c: SimState) -> int {
    if c.index == 0 {
        0
    } else {
        dtr(
            sum_products(t, c.status_shares, c.index - 1, t.nfunds_spec()),
            FIXED_SCALE as int,
        ) + c.status_cash
    }
}

/// The relations the advance operations ensure compose to [`adv_state`] on
/// the simulation state: flushing folds the pending buffer into the
/// committed state, and stepping only moves the day index.
pub proof fn lemma_advance_is_adv_state(
    pre: TransactionIterator,
    mid: TransactionIterator,
    post: TransactionIterator,
    n: int,
)
    requires
        !pre.is_finished_spec(),
        TransactionIterator::flushed(pre, mid),
        TransactionIterator::stepped(mid, post, n),
    ensures
        post.transaction == pre.transaction,
        post.state() == adv_state(pre.transaction, pre.state(), n),
{
    let a = adv_state(pre.transaction, pre.state(), n);
    assert(post.state().buffer_shares =~= a.buffer_shares);
    assert(post.state().status_shares =~= a.status_shares);
}

/// Law of observational purity: the present asset after any operation
/// sequence is a function of the snapshot and the operations alone.  The
/// replayed transition [`sim_step`] is exactly what every operation ensures
/// of its simulation state, for every combination of the logging and
/// recording flags, and neither flag occurs in it: two fresh cursors driven
/// by the same operations therefore reach the same simulation state and the
/// same present asset, whatever their flags.
pub proof fn lemma_present_asset_flag_free(
    t: &Transaction,
    c1: SimState,
    c2: SimState,
    ops: Seq<Op>,
)
    requires
        c1 == init_state(t.nfunds_spec()),
        c2 == init_state(t.nfunds_spec()),
    ensures
        replay(t, c1, ops) == replay(t, c2, ops),
        asset_of_state(t, replay(t, c1, ops)) == asset_of_state(t, replay(t, c2, ops)),
{
}

} // verus!
