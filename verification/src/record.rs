//! The ledger: an append-only, date-ordered accounting trail with running
//! totals, a date-wise union merge, and the internal rate of return solved
//! over its entries.
//!
//! Money, navs and shares are fixed-point raw values at scale
//! [`crate::utility::FIXED_SCALE`].

use vstd::prelude::*;
use vstd::string::StringExecFns;

use crate::date::Date;
use crate::numeric::{absi, dtr};
use crate::utility::FIXED_SCALE;

verus! {

/// The capabilities every ledger entry offers.
pub trait RecordSlice: Sized {
    /// The entry's date.
    spec fn date_spec(&self) -> Date;

    /// The entry's investment delta.
    spec fn investment_spec(&self) -> i64;

    /// The entry's present value.
    spec fn present_value_spec(&self) -> i64;

    /// The entry's comment.
    spec fn comment_spec(&self) -> Seq<char>;

    /// The running investment total up to this entry.
    spec fn total_investment_spec(&self) -> i64;

    /// The running profit up to this entry.
    spec fn profit_spec(&self) -> i64;

    fn date(&self) -> (d: Date)
        ensures
            d == self.date_spec(),
    ;

    fn investment(&self) -> (v: i64)
        ensures
            v == self.investment_spec(),
    ;

    fn present_value(&self) -> (v: i64)
        ensures
            v == self.present_value_spec(),
    ;

    fn comment(&self) -> (c: &str)
        ensures
            c@ == self.comment_spec(),
    ;

    fn total_investment(&self) -> (v: i64)
        ensures
            v == self.total_investment_spec(),
    ;

    fn profit(&self) -> (v: i64)
        ensures
            v == self.profit_spec(),
    ;
}

/// A ledger entry that keeps only money quantities.
#[derive(Debug)]
pub struct ConciseRecordSlice {
    pub date: Date,
    pub investment: i64,
    pub present_value: i64,
    pub comment: String,
    pub total_investment: i64,
    pub profit: i64,
}

/// A ledger entry that also keeps the traded nav, share and fee.
#[derive(Debug)]
pub struct DetailedRecordSlice {
    pub date: Date,
    pub investment: i64,
    pub nav: i64,
    pub share: i64,
    pub comment: String,
    pub fee: i64,
    pub total_investment: i64,
    pub total_share: i64,
    pub present_value: i64,
    pub profit: i64,
}

impl RecordSlice for ConciseRecordSlice {
    open spec fn date_spec(&self) -> Date {
        self.date
    }

    open spec fn investment_spec(&self) -> i64 {
        self.investment
    }

    open spec fn present_value_spec(&self) -> i64 {
        self.present_value
    }

    open spec fn comment_spec(&self) -> Seq<char> {
        self.comment@
    }

    open spec fn total_investment_spec(&self) -> i64 {
        self.total_investment
    }

    open spec fn profit_spec(&self) -> i64 {
        self.profit
    }

    fn date(&self) -> (d: Date) {
        self.date
    }

    fn investment(&self) -> (v: i64) {
        self.investment
    }

    fn present_value(&self) -> (v: i64) {
        self.present_value
    }

    fn comment(&self) -> (c: &str) {
        self.comment.as_str()
    }

    fn total_investment(&self) -> (v: i64) {
        self.total_investment
    }

    fn profit(&self) -> (v: i64) {
        self.profit
    }
}

impl RecordSlice for DetailedRecordSlice {
    open spec fn date_spec(&self) -> Date {
        self.date
    }

    open spec fn investment_spec(&self) -> i64 {
        self.investment
    }

    open spec fn present_value_spec(&self) -> i64 {
        self.present_value
    }

    open spec fn comment_spec(&self) -> Seq<char> {
        self.comment@
    }

    open spec fn total_investment_spec(&self) -> i64 {
        self.total_investment
    }

    open spec fn profit_spec(&self) -> i64 {
        self.profit
    }

    fn date(&self) -> (d: Date) {
        self.date
    }

    fn investment(&self) -> (v: i64) {
        self.investment
    }

    fn present_value(&self) -> (v: i64) {
        self.present_value
    }

    fn comment(&self) -> (c: &str) {
        self.comment.as_str()
    }

    fn total_investment(&self) -> (v: i64) {
        self.total_investment
    }

    fn profit(&self) -> (v: i64) {
        self.profit
    }
}

impl DetailedRecordSlice {
    pub fn nav(&self) -> (v: i64)
        ensures
            v == self.nav,
    {
        self.nav
    }

    pub fn share(&self) -> (v: i64)
        ensures
            v == self.share,
    {
        self.share
    }

    pub fn fee(&self) -> (v: i64)
        ensures
            v == self.fee,
    {
        self.fee
    }

    pub fn total_share(&self) -> (v: i64)
        ensures
            v == self.total_share,
    {
        self.total_share
    }
}

/// The dates of the entries never decrease.
pub open spec fn dates_sorted<Rs: RecordSlice>(s: Seq<Rs>) -> bool {
    forall|i: int, j: int|
        0 <= i <= j < s.len() ==> #[trigger] s[i].date_spec().dn() <= #[trigger] s[j].date_spec().dn()
}

/// Every entry's date is a calendar date.
pub open spec fn dates_valid<Rs: RecordSlice>(s: Seq<Rs>) -> bool {
    forall|i: int| 0 <= i < s.len() ==> (#[trigger] s[i].date_spec()).valid()
}

/// The running total and profit of entry `i` follow from its predecessor.
pub open spec fn entry_totals_ok<Rs: RecordSlice>(s: Seq<Rs>, i: int) -> bool {
    &&& s[i].total_investment_spec() as int == if i == 0 {
        s[i].investment_spec() as int
    } else {
        s[i - 1].total_investment_spec() + s[i].investment_spec()
    }
    &&& s[i].profit_spec() as int == s[i].present_value_spec() - s[i].total_investment_spec()
}

/// All running totals are consistent.
pub open spec fn totals_ok<Rs: RecordSlice>(s: Seq<Rs>) -> bool {
    forall|i: int| 0 <= i < s.len() ==> #[trigger] entry_totals_ok(s, i)
}

/// A named, coded ledger of entries.
#[derive(Debug)]
pub struct Record<Rs: RecordSlice> {
    pub name: String,
    pub code: String,
    pub comment: String,
    pub records: Vec<Rs>,
}

impl<Rs: RecordSlice> View for Record<Rs> {
    type V = Seq<Rs>;

    open spec fn view(&self) -> Seq<Rs> {
        self.records@
    }
}

impl<Rs: RecordSlice> Record<Rs> {
    /// The ledger invariant: ordered valid dates and consistent totals.
    pub open spec fn wf(&self) -> bool {
        &&& dates_sorted(self@)
        &&& dates_valid(self@)
        &&& totals_ok(self@)
    }

    /// An empty ledger with a name and a code.
    pub fn new(name: &str, code: &str) -> (r: Self)
        ensures
            r@ == Seq::<Rs>::empty(),
            r.name@ == name@,
            r.code@ == code@,
            r.comment@ == Seq::<char>::empty(),
            r.wf(),
    {
        Record {
            name: name.to_owned(),
            code: code.to_owned(),
            comment: String::new(),
            records: Vec::new(),
        }
    }

    /// An empty ledger with a name, a code and a comment.
    pub fn new_comment(name: &str, code: &str, comment: &str) -> (r: Self)
        ensures
            r@ == Seq::<Rs>::empty(),
            r.name@ == name@,
            r.code@ == code@,
            r.comment@ == comment@,
            r.wf(),
    {
        Record {
            name: name.to_owned(),
            code: code.to_owned(),
            comment: comment.to_owned(),
            records: Vec::new(),
        }
    }

    pub fn name(&self) -> (r: &str)
        ensures
            r@ == self.name@,
    {
        self.name.as_str()
    }

    pub fn code(&self) -> (r: &str)
        ensures
            r@ == self.code@,
    {
        self.code.as_str()
    }

    pub fn comment(&self) -> (r: &str)
        ensures
            r@ == self.comment@,
    {
        self.comment.as_str()
    }

    /// The entries.
    pub fn records(&self) -> (r: &Vec<Rs>)
        ensures
            r@ == self@,
    {
        &self.records
    }

    /// The entry at `i`.
    pub fn index(&self, i: usize) -> (r: &Rs)
        requires
            i < self@.len(),
        ensures
            *r == self@[i as int],
    {
        &self.records[i]
    }

    pub fn len(&self) -> (n: usize)
        ensures
            n == self@.len(),
    {
        self.records.len()
    }

    pub fn is_empty(&self) -> (b: bool)
        ensures
            b <==> self@.len() == 0,
    {
        self.records.len() == 0
    }

    /// Remove every entry; name, code and comment stay.
    pub fn clear(&mut self)
        ensures
            final(self)@ == Seq::<Rs>::empty(),
            final(self).name == old(self).name,
            final(self).code == old(self).code,
            final(self).comment == old(self).comment,
            final(self).wf(),
    {
        self.records.clear();
    }
}

/// The running total that appending an entry with investment `inv` produces.
pub open spec fn next_total_investment<Rs: RecordSlice>(s: Seq<Rs>, inv: int) -> int {
    if s.len() == 0 {
        inv
    } else {
        s.last().total_investment_spec() + inv
    }
}

/// The running share total that appending an entry with share `sh` produces.
pub open spec fn next_total_share(s: Seq<DetailedRecordSlice>, sh: int) -> int {
    if s.len() == 0 {
        sh
    } else {
        s.last().total_share as int + sh
    }
}

impl Record<ConciseRecordSlice> {
    /// Append an entry dated `date` with the given investment delta and
    /// present value; the running total and profit follow from the last
    /// entry.  A date earlier than the last entry's is an ordering violation
    /// and is excluded, as are totals that leave the fixed-point range.
    pub fn append(&mut self, date: Date, investment: i64, present_value: i64, comment: &str)
        requires
            old(self).wf(),
            date.valid(),
            old(self)@.len() > 0 ==> old(self)@.last().date_spec().dn() <= date.dn(),
            i64::MIN <= next_total_investment(old(self)@, investment as int) <= i64::MAX,
            i64::MIN <= present_value - next_total_investment(old(self)@, investment as int)
                <= i64::MAX,
        ensures
            final(self).wf(),
            final(self)@.len() == old(self)@.len() + 1,
            final(self)@.subrange(0, old(self)@.len() as int) == old(self)@,
            final(self)@.last().date == date,
            final(self)@.last().investment == investment,
            final(self)@.last().present_value == present_value,
            final(self)@.last().comment@ == comment@,
            final(self)@.last().total_investment as int == next_total_investment(
                old(self)@,
                investment as int,
            ),
            final(self)@.last().profit as int == present_value - next_total_investment(
                old(self)@,
                investment as int,
            ),
            final(self).name == old(self).name,
            final(self).code == old(self).code,
            final(self).comment == old(self).comment,
    {
        let n = self.records.len();
        let total_investment: i64 = if n == 0 {
            investment
        } else {
            proof {
                assert(entry_totals_ok(self@, n - 1));
            }
            self.records[n - 1].total_investment + investment
        };
        let entry = ConciseRecordSlice {
            date,
            investment,
            present_value,
            comment: comment.to_owned(),
            total_investment,
            profit: present_value - total_investment,
        };
        self.records.push(entry);
        proof {
            let s = self@;
            let olds = old(self)@;
            assert(s.subrange(0, olds.len() as int) =~= olds);
            assert forall|i: int, j: int| 0 <= i <= j < s.len() implies #[trigger] s[i].date_spec().dn()
                <= #[trigger] s[j].date_spec().dn() by {
                if j < olds.len() {
                    assert(olds[i].date_spec().dn() <= olds[j].date_spec().dn());
                } else if i < olds.len() {
                    assert(olds[i].date_spec().dn() <= olds.last().date_spec().dn());
                }
            }
            assert forall|i: int| 0 <= i < s.len() implies (#[trigger] s[i].date_spec()).valid() by {
                if i < olds.len() {
                    assert(olds[i].date_spec().valid());
                }
            }
            assert forall|i: int| 0 <= i < s.len() implies #[trigger] entry_totals_ok(s, i) by {
                if i < olds.len() {
                    assert(entry_totals_ok(olds, i));
                }
            }
        }
    }
}

impl Record<DetailedRecordSlice> {
    /// Append an entry dated `date` for an investment of `share` units traded
    /// at `nav`; fee, running totals, present value and profit follow.  An
    /// out-of-order date is excluded, as are values that leave the
    /// fixed-point range.
    pub fn append(&mut self, date: Date, investment: i64, nav: i64, share: i64, comment: &str)
        requires
            old(self).wf(),
            date.valid(),
            old(self)@.len() > 0 ==> old(self)@.last().date_spec().dn() <= date.dn(),
            i64::MIN <= dtr(nav as int * share as int, FIXED_SCALE as int) <= i64::MAX,
            i64::MIN <= investment - dtr(nav as int * share as int, FIXED_SCALE as int)
                <= i64::MAX,
            i64::MIN <= next_total_investment(old(self)@, investment as int) <= i64::MAX,
            i64::MIN <= next_total_share(old(self)@, share as int) <= i64::MAX,
            i64::MIN <= dtr(
                nav as int * next_total_share(old(self)@, share as int),
                FIXED_SCALE as int,
            ) <= i64::MAX,
            i64::MIN <= dtr(
                nav as int * next_total_share(old(self)@, share as int),
                FIXED_SCALE as int,
            ) - next_total_investment(old(self)@, investment as int) <= i64::MAX,
        ensures
            final(self).wf(),
            final(self)@.len() == old(self)@.len() + 1,
            final(self)@.subrange(0, old(self)@.len() as int) == old(self)@,
            final(self)@.last().date == date,
            final(self)@.last().investment == investment,
            final(self)@.last().nav == nav,
            final(self)@.last().share == share,
            final(self)@.last().comment@ == comment@,
            final(self)@.last().fee as int == investment - dtr(
                nav as int * share as int,
                FIXED_SCALE as int,
            ),
            final(self)@.last().total_investment as int == next_total_investment(
                old(self)@,
                investment as int,
            ),
            final(self)@.last().total_share as int == next_total_share(old(self)@, share as int),
            final(self)@.last().present_value as int == dtr(
                nav as int * next_total_share(old(self)@, share as int),
                FIXED_SCALE as int,
            ),
            final(self)@.last().profit as int == final(self)@.last().present_value
                - final(self)@.last().total_investment,
            final(self).name == old(self).name,
            final(self).code == old(self).code,
            final(self).comment == old(self).comment,
    {
        let n = self.records.len();
        let (total_investment, total_share): (i64, i64) = if n == 0 {
            (investment, share)
        } else {
            proof {
                assert(entry_totals_ok(self@, n - 1));
            }
            let prev = &self.records[n - 1];
            (prev.total_investment + investment, prev.total_share + share)
        };
        proof {
            crate::numeric::lemma_abs_mul(
                nav as int,
                share as int,
                i64::MAX as int + 1,
                i64::MAX as int + 1,
            );
            crate::numeric::lemma_abs_mul(
                nav as int,
                total_share as int,
                i64::MAX as int + 1,
                i64::MAX as int + 1,
            );
        }
        let traded = crate::numeric::div_q((nav as i128) * (share as i128), FIXED_SCALE as i128);
        let fee = investment - (traded as i64);
        let present_value = crate::numeric::div_q(
            (nav as i128) * (total_share as i128),
            FIXED_SCALE as i128,
        ) as i64;
        let entry = DetailedRecordSlice {
            date,
            investment,
            nav,
            share,
            comment: comment.to_owned(),
            fee,
            total_investment,
            total_share,
            present_value,
            profit: present_value - total_investment,
        };
        self.records.push(entry);
        proof {
            let s = self@;
            let olds = old(self)@;
            assert(s.subrange(0, olds.len() as int) =~= olds);
            assert forall|i: int, j: int| 0 <= i <= j < s.len() implies #[trigger] s[i].date_spec().dn()
                <= #[trigger] s[j].date_spec().dn() by {
                if j < olds.len() {
                    assert(olds[i].date_spec().dn() <= olds[j].date_spec().dn());
                } else if i < olds.len() {
                    assert(olds[i].date_spec().dn() <= olds.last().date_spec().dn());
                }
            }
            assert forall|i: int| 0 <= i < s.len() implies (#[trigger] s[i].date_spec()).valid() by {
                if i < olds.len() {
                    assert(olds[i].date_spec().valid());
                }
            }
            assert forall|i: int| 0 <= i < s.len() implies #[trigger] entry_totals_ok(s, i) by {
                if i < olds.len() {
                    assert(entry_totals_ok(olds, i));
                }
            }
        }
    }
}

/// A ledger of concise entries.
pub type ConciseRecord = Record<ConciseRecordSlice>;

/// A ledger of detailed entries.
pub type DetailedRecord = Record<DetailedRecordSlice>;

impl ConciseRecord {
    /// The concise view of a detailed ledger: entry for entry, the money
    /// quantities and comments carried over, the trade details dropped.
    pub fn from(detailed_record: &DetailedRecord) -> (r: ConciseRecord)
        ensures
            r.name == detailed_record.name,
            r.code == detailed_record.code,
            r.comment == detailed_record.comment,
            r@.len() == detailed_record@.len(),
            forall|i: int|
                0 <= i < r@.len() ==> {
                    &&& (#[trigger] r@[i]).date == detailed_record@[i].date
                    &&& r@[i].investment == detailed_record@[i].investment
                    &&& r@[i].present_value == detailed_record@[i].present_value
                    &&& r@[i].comment@ == detailed_record@[i].comment@
                    &&& r@[i].total_investment == detailed_record@[i].total_investment
                    &&& r@[i].profit == detailed_record@[i].profit
                },
            detailed_record.wf() ==> r.wf(),
    {
        let mut records: Vec<ConciseRecordSlice> = Vec::new();
        let n = detailed_record.len();
        let mut i: usize = 0;
        while i < n
            invariant
                n == detailed_record@.len(),
                i <= n,
                records@.len() == i,
                forall|k: int|
                    0 <= k < i ==> {
                        &&& (#[trigger] records@[k]).date == detailed_record@[k].date
                        &&& records@[k].investment == detailed_record@[k].investment
                        &&& records@[k].present_value == detailed_record@[k].present_value
                        &&& records@[k].comment@ == detailed_record@[k].comment@
                        &&& records@[k].total_investment == detailed_record@[k].total_investment
                        &&& records@[k].profit == detailed_record@[k].profit
                    },
            decreases n - i,
        {
            let s = detailed_record.index(i);
            records.push(
                ConciseRecordSlice {
                    date: s.date,
                    investment: s.investment,
                    present_value: s.present_value,
                    comment: s.comment.clone(),
                    total_investment: s.total_investment,
                    profit: s.profit,
                },
            );
            i = i + 1;
        }
        let r = ConciseRecord {
            name: detailed_record.name.clone(),
            code: detailed_record.code.clone(),
            comment: detailed_record.comment.clone(),
            records,
        };
        proof {
            if detailed_record.wf() {
                let s = r@;
                let d = detailed_record@;
                assert forall|i: int, j: int| 0 <= i <= j < s.len() implies #[trigger] s[i].date_spec().dn()
                    <= #[trigger] s[j].date_spec().dn() by {
                    assert(d[i].date_spec().dn() <= d[j].date_spec().dn());
                }
                assert forall|i: int| 0 <= i < s.len() implies (#[trigger] s[i].date_spec()).valid() by {
                    assert(d[i].date_spec().valid());
                }
                assert forall|i: int| 0 <= i < s.len() implies #[trigger] entry_totals_ok(s, i) by {
                    assert(entry_totals_ok(d, i));
                }
            }
        }
        r
    }
}

/// Two comment sequences joined with `"; "`, an empty side joining as the
/// other side alone.
pub open spec fn join2(a: Seq<char>, c: Seq<char>) -> Seq<char> {
    if c.len() == 0 {
        a
    } else if a.len() == 0 {
        c
    } else {
        a + "; "@ + c
    }
}

/// Append a non-empty comment to a joined comment buffer.
fn join_comment(acc: &mut String, c: &str)
    ensures
        final(acc)@ == join2(old(acc)@, c@),
{
    if !c.is_empty() {
        if !acc.as_str().is_empty() {
            acc.append("; ");
        }
        acc.append(c);
        proof {
            assert(final(acc)@ =~= join2(old(acc)@, c@));
        }
    }
}

/// A merged entry, before running totals are recomputed.
pub ghost struct MergeEntry {
    pub date: Date,
    pub investment: int,
    pub present_value: int,
    pub comment: Seq<char>,
}

/// The abstract view of concise entries: the fields the merge reads.
pub open spec fn abs_entries(s: Seq<ConciseRecordSlice>) -> Seq<MergeEntry> {
    Seq::new(
        s.len(),
        |k: int|
            MergeEntry {
                date: s[k].date,
                investment: s[k].investment as int,
                present_value: s[k].present_value as int,
                comment: s[k].comment@,
            },
    )
}

/// The abstract view of detailed entries: the fields the merge reads.
pub open spec fn abs_detailed(s: Seq<DetailedRecordSlice>) -> Seq<MergeEntry> {
    Seq::new(
        s.len(),
        |k: int|
            MergeEntry {
                date: s[k].date,
                investment: s[k].investment as int,
                present_value: s[k].present_value as int,
                comment: s[k].comment@,
            },
    )
}

/// First index at or after `i` whose entry is not dated `d`.
pub open spec fn run_end(s: Seq<MergeEntry>, i: int, d: int) -> int
    decreases s.len() - i,
{
    if 0 <= i < s.len() && s[i].date.dn() == d {
        run_end(s, i + 1, d)
    } else {
        i
    }
}

/// Sum of the investments of the run of entries dated `d` from `i` on.
pub open spec fn run_inv(s: Seq<MergeEntry>, i: int, d: int) -> int
    decreases s.len() - i,
{
    if 0 <= i < s.len() && s[i].date.dn() == d {
        s[i].investment + run_inv(s, i + 1, d)
    } else {
        0
    }
}

/// The last present value of the run of entries dated `d` from `i` on,
/// `pv0` when the run is empty.
pub open spec fn run_pv(s: Seq<MergeEntry>, i: int, d: int, pv0: int) -> int
    decreases s.len() - i,
{
    if 0 <= i < s.len() && s[i].date.dn() == d {
        run_pv(s, i + 1, d, s[i].present_value)
    } else {
        pv0
    }
}

/// The comments of the run of entries dated `d` from `i` on, joined onto
/// `acc`.
pub open spec fn run_comment(s: Seq<MergeEntry>, i: int, d: int, acc: Seq<char>) -> Seq<
    char,
>
    decreases s.len() - i,
{
    if 0 <= i < s.len() && s[i].date.dn() == d {
        run_comment(s, i + 1, d, join2(acc, s[i].comment))
    } else {
        acc
    }
}

/// `run_end` stays between `i` and the length.
pub proof fn lemma_run_end_range(s: Seq<MergeEntry>, i: int, d: int)
    requires
        0 <= i <= s.len(),
    ensures
        i <= run_end(s, i, d) <= s.len(),
    decreases s.len() - i,
{
    if i < s.len() && s[i].date.dn() == d {
        lemma_run_end_range(s, i + 1, d);
    }
}

/// The date-wise union merge of two ledgers, from positions `i` and `j`, with
/// `pv1` and `pv2` the present values carried forward: each distinct date in
/// ascending order gives one entry whose investment sums the runs of both
/// sides, whose present value sums each side's carried-forward value, and
/// whose comment joins the runs' comments, tagged `"estimated"` when only one
/// side has entries on that date.
pub open spec fn merge_model(
    s1: Seq<MergeEntry>,
    s2: Seq<MergeEntry>,
    i: int,
    j: int,
    pv1: int,
    pv2: int,
) -> Seq<MergeEntry>
    decreases s1.len() + s2.len() - i - j,
    when 0 <= i <= s1.len() && 0 <= j <= s2.len()
    via merge_model_dec
{
    if i >= s1.len() && j >= s2.len() {
        Seq::empty()
    } else {
        let take1 = j >= s2.len() || (i < s1.len() && s1[i].date.dn() <= s2[j].date.dn());
        let date = if take1 {
            s1[i].date
        } else {
            s2[j].date
        };
        let d = date.dn();
        let i2 = run_end(s1, i, d);
        let j2 = run_end(s2, j, d);
        let npv1 = run_pv(s1, i, d, pv1);
        let npv2 = run_pv(s2, j, d, pv2);
        let joined = run_comment(s2, j, d, run_comment(s1, i, d, Seq::empty()));
        let comment = if i2 > i && j2 > j {
            joined
        } else {
            join2(joined, "estimated"@)
        };
        let entry = MergeEntry {
            date,
            investment: run_inv(s1, i, d) + run_inv(s2, j, d),
            present_value: npv1 + npv2,
            comment,
        };
        seq![entry] + merge_model(s1, s2, i2, j2, npv1, npv2)
    }
}

#[via_fn]
proof fn merge_model_dec(
    s1: Seq<MergeEntry>,
    s2: Seq<MergeEntry>,
    i: int,
    j: int,
    pv1: int,
    pv2: int,
) {
    if !(i >= s1.len() && j >= s2.len()) {
        let take1 = j >= s2.len() || (i < s1.len() && s1[i].date.dn() <= s2[j].date.dn());
        let date = if take1 {
            s1[i].date
        } else {
            s2[j].date
        };
        let d = date.dn();
        lemma_run_end_range(s1, i, d);
        lemma_run_end_range(s2, j, d);
        if take1 {
            assert(s1[i].date.dn() == d);
            assert(run_end(s1, i, d) == run_end(s1, i + 1, d));
            lemma_run_end_range(s1, i + 1, d);
            assert(run_end(s1, i, d) >= i + 1);
        } else {
            assert(s2[j].date.dn() == d);
            assert(run_end(s2, j, d) == run_end(s2, j + 1, d));
            lemma_run_end_range(s2, j + 1, d);
            assert(run_end(s2, j, d) >= j + 1);
        }
    }
}

/// Running total of the first `k + 1` merged entries' investments.
pub open spec fn model_total(model: Seq<MergeEntry>, k: int) -> int
    decreases k + 1,
{
    if k < 0 {
        0
    } else if k >= model.len() {
        model_total(model, model.len() - 1)
    } else {
        model_total(model, k - 1) + model[k].investment
    }
}

/// Every merged entry's money quantities, running total and profit fit the
/// fixed-point range.
pub open spec fn merged_fits(model: Seq<MergeEntry>) -> bool {
    forall|k: int|
        0 <= k < model.len() ==> {
            &&& i64::MIN <= (#[trigger] model[k]).investment <= i64::MAX
            &&& i64::MIN <= model[k].present_value <= i64::MAX
            &&& i64::MIN <= model_total(model, k) <= i64::MAX
            &&& i64::MIN <= model[k].present_value - model_total(model, k) <= i64::MAX
        }
}

/// The merged ledger realizes the model entry for entry.
pub open spec fn merge_matches(s: Seq<ConciseRecordSlice>, model: Seq<MergeEntry>) -> bool {
    &&& s.len() == model.len()
    &&& forall|k: int|
        0 <= k < s.len() ==> {
            &&& (#[trigger] s[k]).date == model[k].date
            &&& s[k].investment as int == model[k].investment
            &&& s[k].present_value as int == model[k].present_value
            &&& s[k].comment@ == model[k].comment
            &&& s[k].total_investment as int == model_total(model, k)
        }
}

/// The day number of entry `k`.
fn dn_at(r: &ConciseRecord, k: usize) -> (dn: i64)
    requires
        r.wf(),
        k < r@.len(),
    ensures
        dn == r@[k as int].date.dn(),
{
    proof {
        assert(r@[k as int].date_spec().valid());
    }
    r.index(k).date.day_number()
}

/// Consume the run of entries dated `d` from `i` on: advance past it, carry
/// the last present value, sum the investments, and join the comments onto
/// `comment`.
fn consume_run(r: &ConciseRecord, i: usize, d: i64, pv: i64, comment: &mut String) -> (res: (
    usize,
    i64,
    i128,
    bool,
))
    requires
        r.wf(),
        i <= r@.len(),
        r@.len() < 0x4000_0000_0000_0000,
    ensures
        res.0 as int == run_end(abs_entries(r@), i as int, d as int),
        i <= res.0 <= r@.len(),
        res.1 as int == run_pv(abs_entries(r@), i as int, d as int, pv as int),
        res.2 as int == run_inv(abs_entries(r@), i as int, d as int),
        final(comment)@ == run_comment(abs_entries(r@), i as int, d as int, old(comment)@),
        res.3 == (res.0 > i),
        absi(res.2 as int) <= r@.len() * (i64::MAX as int + 1),
{
    let ghost a = abs_entries(r@);
    let n = r.len();
    let mut k = i;
    let mut cur_pv = pv;
    let mut inv: i128 = 0;
    while k < n && dn_at(r, k) == d
        invariant
            r.wf(),
            a == abs_entries(r@),
            n == r@.len(),
            n < 0x4000_0000_0000_0000,
            i <= k <= n,
            run_end(a, i as int, d as int) == run_end(a, k as int, d as int),
            run_pv(a, i as int, d as int, pv as int) == run_pv(a, k as int, d as int, cur_pv as int),
            run_inv(a, i as int, d as int) == inv + run_inv(a, k as int, d as int),
            run_comment(a, i as int, d as int, old(comment)@) == run_comment(
                a,
                k as int,
                d as int,
                comment@,
            ),
            absi(inv as int) <= (k - i) * (i64::MAX as int + 1),
        decreases n - k,
    {
        proof {
            assert(a[k as int].date == r@[k as int].date);
            assert(a[k as int].investment == r@[k as int].investment as int);
        }
        let s = r.index(k);
        cur_pv = s.present_value;
        inv = inv + (s.investment as i128);
        join_comment(comment, s.comment.as_str());
        k = k + 1;
    }
    proof {
        if k < n {
            assert(a[k as int].date == r@[k as int].date);
        }
        assert(run_end(a, k as int, d as int) == k);
        assert(run_pv(a, k as int, d as int, cur_pv as int) == cur_pv);
        assert(run_inv(a, k as int, d as int) == 0);
        assert(run_comment(a, k as int, d as int, comment@) == comment@);
    }
    (k, cur_pv, inv, k > i)
}

/// The first `n` merged entries are realized entry for entry, with running
/// totals matching [`model_total`].
pub open spec fn merge_prefix(s: Seq<ConciseRecordSlice>, model: Seq<MergeEntry>) -> bool {
    &&& s.len() <= model.len()
    &&& forall|k: int|
        0 <= k < s.len() ==> {
            &&& (#[trigger] s[k]).date == model[k].date
            &&& s[k].investment as int == model[k].investment
            &&& s[k].present_value as int == model[k].present_value
            &&& s[k].comment@ == model[k].comment
            &&& s[k].total_investment as int == model_total(model, k)
        }
}

/// The date-wise union merge of two ledgers into a fresh unnamed ledger:
/// the merged entries realize [`merge_model`] and the running totals are
/// recomputed by the ordinary append.
#[verifier::rlimit(100)]
pub fn merge_records(r1: &ConciseRecord, r2: &ConciseRecord) -> (m: ConciseRecord)
    requires
        r1.wf(),
        r2.wf(),
        r1@.len() < 0x4000_0000_0000_0000,
        r2@.len() < 0x4000_0000_0000_0000,
        merged_fits(merge_model(abs_entries(r1@), abs_entries(r2@), 0, 0, 0, 0)),
    ensures
        m.wf(),
        merge_matches(m@, merge_model(abs_entries(r1@), abs_entries(r2@), 0, 0, 0, 0)),
        m.name@ == ""@,
        m.code@ == ""@,
{
    let ghost a1 = abs_entries(r1@);
    let ghost a2 = abs_entries(r2@);
    let ghost model = merge_model(a1, a2, 0, 0, 0, 0);
    let mut m = ConciseRecord::new("", "");
    let mut i: usize = 0;
    let mut j: usize = 0;
    let mut pv1: i64 = 0;
    let mut pv2: i64 = 0;
    let len1 = r1.len();
    let len2 = r2.len();
    proof {
        assert(model.subrange(0, model.len() as int) =~= model);
    }
    while i < len1 || j < len2
        invariant
            r1.wf(),
            r2.wf(),
            len1 == r1@.len(),
            len2 == r2@.len(),
            len1 < 0x4000_0000_0000_0000,
            len2 < 0x4000_0000_0000_0000,
            i <= len1,
            j <= len2,
            merged_fits(model),
            a1 == abs_entries(r1@),
            a2 == abs_entries(r2@),
            model == merge_model(a1, a2, 0, 0, 0, 0),
            m@.len() <= model.len(),
            merge_model(a1, a2, i as int, j as int, pv1 as int, pv2 as int) == model.subrange(
                m@.len() as int,
                model.len() as int,
            ),
            merge_prefix(m@, model),
            m.wf(),
            m.name@ == ""@,
            m.code@ == ""@,
            m@.len() > 0 && i < len1 ==> m@.last().date.dn() <= r1@[i as int].date.dn(),
            m@.len() > 0 && j < len2 ==> m@.last().date.dn() <= r2@[j as int].date.dn(),
        decreases len1 - i + len2 - j,
    {
        proof {
            if i < len1 {
                assert(r1@[i as int].date_spec().valid());
            }
            if j < len2 {
                assert(r2@[j as int].date_spec().valid());
            }
        }
        let ghost i0 = i as int;
        let ghost j0 = j as int;
        let ghost opv1 = pv1 as int;
        let ghost opv2 = pv2 as int;
        let ghost k = m@.len() as int;
        let ghost m_old = m@;
        let ghost tail = merge_model(a1, a2, i0, j0, opv1, opv2);
        let take1 = if j >= len2 {
            true
        } else if i >= len1 {
            false
        } else {
            r1.index(i).date.day_number() <= r2.index(j).date.day_number()
        };
        let date = if take1 {
            r1.index(i).date
        } else {
            r2.index(j).date
        };
        let d = date.day_number();
        let mut comment = String::new();
        let run1 = consume_run(r1, i, d, pv1, &mut comment);
        let run2 = consume_run(r2, j, d, pv2, &mut comment);
        let (ni, npv1, inv1, st1) = run1;
        let (nj, npv2, inv2, st2) = run2;
        if !(st1 && st2) {
            join_comment(&mut comment, "estimated");
        }
        let ghost entry = MergeEntry {
            date,
            investment: inv1 + inv2,
            present_value: npv1 + npv2,
            comment: comment@,
        };
        proof {
            assert(a1.len() == r1@.len() && a2.len() == r2@.len());
            if i0 < r1@.len() {
                assert(a1[i0].date == r1@[i0].date);
            }
            if j0 < r2@.len() {
                assert(a2[j0].date == r2@[j0].date);
            }
            assert(take1 == (j0 >= a2.len() || (i0 < a1.len() && a1[i0].date.dn()
                <= a2[j0].date.dn())));
            assert(tail == seq![entry] + merge_model(
                a1,
                a2,
                ni as int,
                nj as int,
                npv1 as int,
                npv2 as int,
            ));
            assert(tail[0] == entry);
            assert(model[k] == entry) by {
                assert(model.subrange(k, model.len() as int)[0] == model[k]);
            }
        }
        let inv_sum: i128 = inv1 + inv2;
        let pv_sum: i128 = (npv1 as i128) + (npv2 as i128);
        proof {
            assert(i64::MIN <= model[k].investment <= i64::MAX);
            assert(i64::MIN <= model_total(model, k) <= i64::MAX);
            if k > 0 {
                assert(m_old[k - 1].total_investment as int == model_total(model, k - 1));
            } else {
                assert(model_total(model, -1) == 0);
            }
            assert(next_total_investment(m_old, inv_sum as int) == model_total(model, k));
        }
        m.append(date, inv_sum as i64, pv_sum as i64, comment.as_str());
        i = ni;
        j = nj;
        pv1 = npv1;
        pv2 = npv2;
        proof {
            let rest = merge_model(a1, a2, i as int, j as int, pv1 as int, pv2 as int);
            assert(m@.len() == k + 1);
            assert(rest =~= model.subrange(k + 1, model.len() as int)) by {
                assert(tail == seq![entry] + rest);
                assert(tail == model.subrange(k, model.len() as int));
                assert forall|l: int| 0 <= l < rest.len() implies rest[l] == model[k + 1 + l] by {
                    assert(rest[l] == tail[l + 1]);
                    assert(tail[l + 1] == model.subrange(k, model.len() as int)[l + 1]);
                }
            }
            assert(merge_prefix(m@, model)) by {
                assert forall|l: int| 0 <= l < m@.len() implies {
                    &&& (#[trigger] m@[l]).date == model[l].date
                    &&& m@[l].investment as int == model[l].investment
                    &&& m@[l].present_value as int == model[l].present_value
                    &&& m@[l].comment@ == model[l].comment
                    &&& m@[l].total_investment as int == model_total(model, l)
                } by {
                    if l < k {
                        assert(m@[l] == m_old[l]);
                    } else {
                        assert(m@[l] == m@.last());
                    }
                }
            }
            // the next heads are dated no earlier than the entry just merged
            if i < len1 {
                if i0 < len1 {
                    assert(r1@[i0].date_spec().dn() <= r1@[i as int].date_spec().dn());
                }
                if take1 {
                    assert(r1@[i0].date.dn() == d as int);
                } else {
                    assert(r2@[j0].date.dn() == d as int);
                }
            }
            if j < len2 {
                if j0 < len2 {
                    assert(r2@[j0].date_spec().dn() <= r2@[j as int].date_spec().dn());
                }
                if take1 {
                    assert(r1@[i0].date.dn() == d as int);
                }
            }
        }
    }
    proof {
        assert(merge_model(a1, a2, i as int, j as int, pv1 as int, pv2 as int)
            == Seq::<MergeEntry>::empty());
        assert(model.subrange(m@.len() as int, model.len() as int).len() == 0);
        assert(m@.len() == model.len());
    }
    m
}

/// Law of the self-merge: merging a ledger with itself, from position `i`
/// with equal carried values, yields exactly one merged entry per source
/// entry when the dates strictly increase; each merged entry keeps the date,
/// doubles the investment and the present value, and joins the comment with
/// itself -- no entry is tagged "estimated".
pub proof fn lemma_merge_self_doubles(s: Seq<MergeEntry>, i: int, pv: int)
    requires
        0 <= i <= s.len(),
        forall|k: int, l: int|
            0 <= k < l < s.len() ==> #[trigger] s[k].date.dn() < #[trigger] s[l].date.dn(),
    ensures
        merge_model(s, s, i, i, pv, pv).len() == s.len() - i,
        forall|k: int|
            0 <= k < s.len() - i ==> {
                let e = #[trigger] merge_model(s, s, i, i, pv, pv)[k];
                &&& e.date == s[i + k].date
                &&& e.investment == 2 * s[i + k].investment
                &&& e.present_value == 2 * s[i + k].present_value
                &&& e.comment == join2(
                    join2(Seq::<char>::empty(), s[i + k].comment),
                    s[i + k].comment,
                )
            },
    decreases s.len() - i,
{
    if i < s.len() {
        let d = s[i].date.dn();
        assert(run_end(s, i, d) == i + 1) by {
            if i + 1 < s.len() {
                assert(s[i].date.dn() < s[i + 1].date.dn());
            }
            assert(run_end(s, i + 1, d) == i + 1);
        }
        assert(run_inv(s, i, d) == s[i].investment + run_inv(s, i + 1, d));
        assert(run_inv(s, i + 1, d) == 0);
        assert(run_pv(s, i, d, pv) == run_pv(s, i + 1, d, s[i].present_value));
        assert(run_pv(s, i + 1, d, s[i].present_value) == s[i].present_value);
        let c1 = join2(Seq::<char>::empty(), s[i].comment);
        assert(run_comment(s, i, d, Seq::<char>::empty()) == run_comment(s, i + 1, d, c1));
        assert(run_comment(s, i + 1, d, c1) == c1);
        let c2 = join2(c1, s[i].comment);
        assert(run_comment(s, i, d, c1) == run_comment(s, i + 1, d, c2));
        assert(run_comment(s, i + 1, d, c2) == c2);
        let npv = s[i].present_value;
        lemma_merge_self_doubles(s, i + 1, npv);
        let entry = MergeEntry {
            date: s[i].date,
            investment: 2 * s[i].investment,
            present_value: 2 * npv,
            comment: c2,
        };
        let rest = merge_model(s, s, i + 1, i + 1, npv, npv);
        assert(merge_model(s, s, i, i, pv, pv) == seq![entry] + rest);
        assert forall|k: int| 0 <= k < s.len() - i implies {
            let e = #[trigger] merge_model(s, s, i, i, pv, pv)[k];
            &&& e.date == s[i + k].date
            &&& e.investment == 2 * s[i + k].investment
            &&& e.present_value == 2 * s[i + k].present_value
            &&& e.comment == join2(join2(Seq::<char>::empty(), s[i + k].comment), s[i + k].comment)
        } by {
            if k == 0 {
                assert(merge_model(s, s, i, i, pv, pv)[0] == entry);
            } else {
                assert(merge_model(s, s, i, i, pv, pv)[k] == rest[k - 1]);
            }
        }
    }
}

/// First index at or after `i` whose entry is dated `v` or later.
pub open spec fn lower_idx<Rs: RecordSlice>(s: Seq<Rs>, v: int, i: int) -> int
    decreases s.len() - i,
{
    if 0 <= i < s.len() && s[i].date_spec().dn() < v {
        lower_idx(s, v, i + 1)
    } else {
        i
    }
}

/// `lower_idx` splits the entries at `v`: everything before it is dated
/// earlier, everything from it on is not.
pub proof fn lemma_lower_idx_props<Rs: RecordSlice>(s: Seq<Rs>, v: int, i: int)
    requires
        0 <= i <= s.len(),
    ensures
        i <= lower_idx(s, v, i) <= s.len(),
        forall|k: int| i <= k < lower_idx(s, v, i) ==> #[trigger] s[k].date_spec().dn() < v,
        lower_idx(s, v, i) < s.len() ==> s[lower_idx(s, v, i)].date_spec().dn() >= v,
    decreases s.len() - i,
{
    if i < s.len() && s[i].date_spec().dn() < v {
        lemma_lower_idx_props(s, v, i + 1);
    }
}

/// `lower_idx` is monotone in the date looked for.
pub proof fn lemma_lower_idx_mono<Rs: RecordSlice>(s: Seq<Rs>, v1: int, v2: int, i: int)
    requires
        0 <= i <= s.len(),
        v1 <= v2,
    ensures
        lower_idx(s, v1, i) <= lower_idx(s, v2, i),
    decreases s.len() - i,
{
    if i < s.len() {
        if s[i].date_spec().dn() < v1 {
            lemma_lower_idx_mono(s, v1, v2, i + 1);
        } else if s[i].date_spec().dn() < v2 {
            lemma_lower_idx_props(s, v1, i);
            lemma_lower_idx_props(s, v2, i + 1);
        }
    }
}

/// The day counts handed to the rate solver: the start date first, then
/// every entry in `[a, b)`, each counted to `end_date`.
pub open spec fn irr_days_model<Rs: RecordSlice>(
    s: Seq<Rs>,
    start_date: Date,
    end_date: Date,
    a: int,
    b: int,
) -> Seq<i64> {
    seq![(end_date.dn() - start_date.dn()) as i64] + Seq::new(
        (b - a) as nat,
        |k: int| (end_date.dn() - s[a + k].date_spec().dn()) as i64,
    )
}

/// The investments handed to the rate solver: the start value first, then
/// every entry's investment in `[a, b)`.
pub open spec fn irr_invs_model<Rs: RecordSlice>(s: Seq<Rs>, start_value: int, a: int, b: int) -> Seq<
    i64,
> {
    seq![start_value as i64] + Seq::new((b - a) as nat, |k: int| s[a + k].investment_spec())
}

/// The imputed value at the start boundary when none is given: zero before
/// the first entry, else the nearer neighbour's present value, the later
/// neighbour taken net of its investment.
pub open spec fn est_start_value<Rs: RecordSlice>(s: Seq<Rs>, sd: Date, sidx: int) -> int {
    if sidx == 0 {
        0
    } else if sd.dn() - s[sidx - 1].date_spec().dn() < s[sidx].date_spec().dn() - sd.dn() {
        s[sidx - 1].present_value_spec() as int
    } else {
        s[sidx].present_value_spec() - s[sidx].investment_spec()
    }
}

/// The imputed value at the end boundary when none is given: the last
/// entry's present value past the ledger, else the nearer neighbour's, the
/// later neighbour taken net of its investment.
pub open spec fn est_end_value<Rs: RecordSlice>(s: Seq<Rs>, ed: Date, eidx: int) -> int {
    if eidx == s.len() {
        s.last().present_value_spec() as int
    } else if ed.dn() - s[eidx - 1].date_spec().dn() < s[eidx].date_spec().dn() - ed.dn() {
        s[eidx - 1].present_value_spec() as int
    } else {
        s[eidx].present_value_spec() - s[eidx].investment_spec()
    }
}

/// The verdict of the defaulted rate computation: boundary dates default to
/// the ledger's first and last, boundary values are imputed by nearest-date
/// lookup, and the solver runs on the resulting flows.
pub open spec fn irr_auto_result<Rs: RecordSlice>(
    s: Seq<Rs>,
    start_date: Option<Date>,
    end_date: Option<Date>,
    start_value: Option<i64>,
    end_value: Option<i64>,
    x0: Option<i64>,
) -> Result<i64, crate::numeric::IrrError> {
    let sd = if start_date is Some {
        start_date->0
    } else {
        s[0].date_spec()
    };
    let ed = if end_date is Some {
        end_date->0
    } else {
        s.last().date_spec()
    };
    let sidx = lower_idx(s, sd.dn(), 0);
    let eidx = lower_idx(s, ed.dn(), 0);
    let sv = if start_value is Some {
        start_value->0 as int
    } else {
        est_start_value(s, sd, sidx)
    };
    let ev = if end_value is Some {
        end_value->0 as int
    } else {
        est_end_value(s, ed, eidx)
    };
    let x0v = if x0 is Some {
        x0->0 as int
    } else {
        0
    };
    let days = irr_days_model(s, sd, ed, sidx, eidx);
    let invs = irr_invs_model(s, sv, sidx, eidx);
    if crate::numeric::all_zero(invs) {
        Err(crate::numeric::IrrError::DegenerateInput)
    } else {
        match crate::numeric::irr_model(days, invs, ev, x0v) {
            Some(v) => Ok(v as i64),
            None => Err(crate::numeric::IrrError::NoConvergence),
        }
    }
}

impl<Rs: RecordSlice> Record<Rs> {
    /// Internal rate of return over the entries `[start_idx, end_idx)`, with
    /// explicit boundary dates and values: the flows are the start value at
    /// the start date followed by those entries' investments, each counted in
    /// days to `end_date`, and the solver's verdict is returned unchanged.
    pub fn irr_direct(
        &self,
        start_date: Date,
        end_date: Date,
        start_value: i64,
        end_value: i64,
        start_idx: usize,
        end_idx: usize,
        x0: i64,
    ) -> (r: Result<i64, crate::numeric::IrrError>)
        requires
            self.wf(),
            start_idx <= end_idx <= self@.len(),
            start_date.valid(),
            end_date.valid(),
        ensures
            ({
                let days = irr_days_model(
                    self@,
                    start_date,
                    end_date,
                    start_idx as int,
                    end_idx as int,
                );
                let invs = irr_invs_model(self@, start_value as int, start_idx as int, end_idx as int);
                &&& (crate::numeric::all_zero(invs) <==> r == Err::<i64, crate::numeric::IrrError>(
                    crate::numeric::IrrError::DegenerateInput,
                ))
                &&& (!crate::numeric::all_zero(invs) ==> match crate::numeric::irr_model(
                    days,
                    invs,
                    end_value as int,
                    x0 as int,
                ) {
                    Some(v) => r == Ok::<i64, crate::numeric::IrrError>(v as i64),
                    None => r == Err::<i64, crate::numeric::IrrError>(
                        crate::numeric::IrrError::NoConvergence,
                    ),
                })
            }),
    {
        let ghost daysm = irr_days_model(self@, start_date, end_date, start_idx as int, end_idx as int);
        let ghost invsm = irr_invs_model(self@, start_value as int, start_idx as int, end_idx as int);
        let end_dn = end_date.day_number();
        let start_dn = start_date.day_number();
        let mut days: Vec<i64> = Vec::new();
        let mut invs: Vec<i64> = Vec::new();
        days.push(end_dn - start_dn);
        invs.push(start_value);
        let mut k = start_idx;
        while k < end_idx
            invariant
                self.wf(),
                start_idx <= k <= end_idx <= self@.len(),
                end_dn == end_date.dn(),
                days@.len() == 1 + k - start_idx,
                invs@.len() == 1 + k - start_idx,
                daysm == irr_days_model(self@, start_date, end_date, start_idx as int, end_idx as int),
                invsm == irr_invs_model(self@, start_value as int, start_idx as int, end_idx as int),
                forall|l: int| 0 <= l < days@.len() ==> #[trigger] days@[l] == daysm[l],
                forall|l: int| 0 <= l < invs@.len() ==> #[trigger] invs@[l] == invsm[l],
            decreases end_idx - k,
        {
            proof {
                assert(self@[k as int].date_spec().valid());
            }
            let entry = self.index(k);
            days.push(end_dn - entry.date().day_number());
            invs.push(entry.investment());
            k = k + 1;
        }
        proof {
            assert(days@ =~= daysm);
            assert(invs@ =~= invsm);
        }
        crate::numeric::irr(&days, &invs, end_value, x0)
    }

    /// Internal rate of return with every parameter defaulted.
    pub fn irr_naive(&self) -> (r: Result<i64, crate::numeric::IrrError>)
        requires
            self.wf(),
            self@.len() > 0,
            self@[0].date_spec().dn() < self@.last().date_spec().dn(),
            i64::MIN <= est_start_value(
                self@,
                self@[0].date_spec(),
                lower_idx(self@, self@[0].date_spec().dn(), 0),
            ) <= i64::MAX,
            i64::MIN <= est_end_value(
                self@,
                self@.last().date_spec(),
                lower_idx(self@, self@.last().date_spec().dn(), 0),
            ) <= i64::MAX,
        ensures
            r == irr_auto_result(self@, None::<Date>, None::<Date>, None::<i64>, None::<i64>, None::<i64>),
    {
        proof {
            assert(self@[0].date_spec().dn() <= self@[self@.len() - 1].date_spec().dn());
        }
        self.irr(None, None, None, None, None)
    }

    /// The entries' day numbers, in order.
    fn entry_dns(&self) -> (dns: Vec<i64>)
        requires
            self.wf(),
        ensures
            dns@.len() == self@.len(),
            forall|l: int| 0 <= l < dns@.len() ==> #[trigger] dns@[l] == self@[l].date_spec().dn(),
            crate::utility::sorted(dns@),
    {
        let n = self.len();
        let mut dns: Vec<i64> = Vec::new();
        let mut k: usize = 0;
        while k < n
            invariant
                self.wf(),
                n == self@.len(),
                k <= n,
                dns@.len() == k,
                forall|l: int| 0 <= l < k ==> #[trigger] dns@[l] == self@[l].date_spec().dn(),
            decreases n - k,
        {
            proof {
                assert(self@[k as int].date_spec().valid());
            }
            dns.push(self.index(k).date().day_number());
            k = k + 1;
        }
        dns
    }

    /// Index of the first entry dated `d` or later, by sorted search.
    fn boundary_idx(&self, d: i64) -> (r: usize)
        requires
            self.wf(),
        ensures
            r as int == lower_idx(self@, d as int, 0),
            r <= self@.len(),
    {
        let dns = self.entry_dns();
        let r = crate::utility::search_sorted(dns.as_slice(), d, None);
        proof {
            lemma_lower_idx_props(self@, d as int, 0);
            let li = lower_idx(self@, d as int, 0);
            if (r as int) < li {
                assert(dns@[r as int] >= d);
                assert(self@[r as int].date_spec().dn() < d);
            } else if li < r as int {
                assert(dns@[li] < d);
                assert(self@[li].date_spec().dn() >= d);
            }
        }
        r
    }

    /// The imputed start-boundary value, realizing [`est_start_value`].
    fn est_start_exec(&self, sd: Date, start_idx: usize) -> (v: i64)
        requires
            self.wf(),
            sd.valid(),
            start_idx as int == lower_idx(self@, sd.dn(), 0),
            sd.dn() <= self@.last().date_spec().dn(),
            self@.len() > 0,
            i64::MIN <= est_start_value(self@, sd, start_idx as int) <= i64::MAX,
        ensures
            v as int == est_start_value(self@, sd, start_idx as int),
    {
        let n = self.len();
        if start_idx == 0 {
            0
        } else {
            proof {
                lemma_lower_idx_props(self@, sd.dn(), 0);
                assert(start_idx < n) by {
                    if start_idx == n {
                        assert(self@[n - 1].date_spec().dn() < sd.dn());
                    }
                }
                assert(self@[start_idx - 1].date_spec().valid());
                assert(self@[start_idx as int].date_spec().valid());
            }
            let sdn = sd.day_number();
            if sdn - self.index(start_idx - 1).date().day_number() < self.index(
                start_idx,
            ).date().day_number() - sdn {
                self.index(start_idx - 1).present_value()
            } else {
                let e = self.index(start_idx);
                e.present_value() - e.investment()
            }
        }
    }

    /// The imputed end-boundary value, realizing [`est_end_value`].
    fn est_end_exec(&self, ed: Date, end_idx: usize) -> (v: i64)
        requires
            self.wf(),
            ed.valid(),
            end_idx as int == lower_idx(self@, ed.dn(), 0),
            self@[0].date_spec().dn() < ed.dn(),
            self@.len() > 0,
            i64::MIN <= est_end_value(self@, ed, end_idx as int) <= i64::MAX,
        ensures
            v as int == est_end_value(self@, ed, end_idx as int),
    {
        let n = self.len();
        if end_idx == n {
            proof {
                assert(self@[n - 1].date_spec() == self@.last().date_spec());
            }
            self.index(n - 1).present_value()
        } else {
            proof {
                lemma_lower_idx_props(self@, ed.dn(), 0);
                assert(end_idx < n);
                assert(end_idx >= 1) by {
                    assert(self@[0].date_spec().dn() < ed.dn());
                    assert(lower_idx(self@, ed.dn(), 0) == lower_idx(self@, ed.dn(), 1));
                    lemma_lower_idx_props(self@, ed.dn(), 1);
                }
                assert(self@[end_idx - 1].date_spec().valid());
                assert(self@[end_idx as int].date_spec().valid());
            }
            let edn = ed.day_number();
            if edn - self.index(end_idx - 1).date().day_number() < self.index(
                end_idx,
            ).date().day_number() - edn {
                self.index(end_idx - 1).present_value()
            } else {
                let e = self.index(end_idx);
                e.present_value() - e.investment()
            }
        }
    }

    #[verifier::rlimit(100)]
    /// Internal rate of return between two boundary dates, each defaulting to
    /// the ledger's first or last date, with missing boundary values imputed
    /// by nearest-date lookup: the index of each boundary comes from the
    /// sorted search, and a boundary date falling strictly between two
    /// entries takes the nearer entry's present value, the later entry net of
    /// its investment.
    pub fn irr(
        &self,
        start_date: Option<Date>,
        end_date: Option<Date>,
        start_value: Option<i64>,
        end_value: Option<i64>,
        x0: Option<i64>,
    ) -> (r: Result<i64, crate::numeric::IrrError>)
        requires
            self.wf(),
            self@.len() > 0,
            start_date is Some ==> start_date->0.valid(),
            end_date is Some ==> end_date->0.valid(),
            ({
                let sd = if start_date is Some {
                    start_date->0
                } else {
                    self@[0].date_spec()
                };
                let ed = if end_date is Some {
                    end_date->0
                } else {
                    self@.last().date_spec()
                };
                let sidx = lower_idx(self@, sd.dn(), 0);
                let eidx = lower_idx(self@, ed.dn(), 0);
                &&& sd.dn() <= ed.dn()
                &&& (start_value is None ==> sd.dn() <= self@.last().date_spec().dn())
                &&& (end_value is None ==> self@[0].date_spec().dn() < ed.dn())
                &&& (start_value is None ==> i64::MIN <= est_start_value(self@, sd, sidx)
                    <= i64::MAX)
                &&& (end_value is None ==> i64::MIN <= est_end_value(self@, ed, eidx) <= i64::MAX)
            }),
        ensures
            r == irr_auto_result(self@, start_date, end_date, start_value, end_value, x0),
    {
        proof {
            assert(self@[0].date_spec().valid());
            assert(self@[self@.len() - 1].date_spec().valid());
        }
        let n = self.len();
        let sd = match start_date {
            Some(d) => d,
            None => self.index(0).date(),
        };
        let ed = match end_date {
            Some(d) => d,
            None => self.index(n - 1).date(),
        };
        let start_idx = self.boundary_idx(sd.day_number());
        let end_idx = self.boundary_idx(ed.day_number());
        let sv: i64 = match start_value {
            Some(v) => v,
            None => self.est_start_exec(sd, start_idx),
        };
        let ev: i64 = match end_value {
            Some(v) => v,
            None => self.est_end_exec(ed, end_idx),
        };
        let x0v: i64 = match x0 {
            Some(v) => v,
            None => 0,
        };
        proof {
            lemma_lower_idx_mono(self@, sd.dn(), ed.dn(), 0);
            lemma_lower_idx_props(self@, ed.dn(), 0);
        }
        self.irr_direct(sd, ed, sv, ev, start_idx, end_idx, x0v)
    }
}

} // verus!
