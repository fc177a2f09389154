//! Time-series containers: named, coded sequences of date-stamped records,
//! appended in date order by their producers.
//!
//! Navs and prices are fixed-point raw values at scale
//! [`crate::utility::FIXED_SCALE`].

use vstd::prelude::*;
use vstd::string::StringExecFns;

use crate::date::Date;

verus! {

/// The capabilities every time-series record offers.
pub trait DataSlice: Sized {
    /// The record's date.
    spec fn date_spec(&self) -> Date;

    /// The record's value (a fund's nav, a stock's close).
    spec fn value_spec(&self) -> i64;

    fn date(&self) -> (d: Date)
        ensures
            d == self.date_spec(),
    ;

    fn value(&self) -> (v: i64)
        ensures
            v == self.value_spec(),
    ;
}

/// A dated nav of a fund.
#[derive(Debug, Clone, Copy)]
pub struct FundSlice {
    pub date: Date,
    pub value: i64,
}

/// A dated open/high/low/close/volume record of a stock; its value is the
/// close.
#[derive(Debug, Clone, Copy)]
pub struct StockSlice {
    pub date: Date,
    pub open: i64,
    pub high: i64,
    pub low: i64,
    pub close: i64,
    pub volume: i64,
}

impl DataSlice for FundSlice {
    open spec fn date_spec(&self) -> Date {
        self.date
    }

    open spec fn value_spec(&self) -> i64 {
        self.value
    }

    fn date(&self) -> (d: Date) {
        self.date
    }

    fn value(&self) -> (v: i64) {
        self.value
    }
}

impl DataSlice for StockSlice {
    open spec fn date_spec(&self) -> Date {
        self.date
    }

    open spec fn value_spec(&self) -> i64 {
        self.close
    }

    fn date(&self) -> (d: Date) {
        self.date
    }

    fn value(&self) -> (v: i64) {
        self.close
    }
}

/// A named, coded series of records.
#[derive(Debug)]
pub struct Data<Ds: DataSlice> {
    pub name: String,
    pub code: String,
    pub data: Vec<Ds>,
}

impl<Ds: DataSlice> View for Data<Ds> {
    type V = Seq<Ds>;

    open spec fn view(&self) -> Seq<Ds> {
        self.data@
    }
}

/// A fund series.
pub type Fund = Data<FundSlice>;

/// A stock series.
pub type Stock = Data<StockSlice>;

/// The records' dates never decrease and are calendar dates.  This is not
/// enforced by the container itself: producers append in order, and the
/// alignment layer assumes it.
pub open spec fn data_ordered<Ds: DataSlice>(s: Seq<Ds>) -> bool {
    &&& forall|i: int, j: int|
        0 <= i <= j < s.len() ==> #[trigger] s[i].date_spec().dn() <= #[trigger] s[j].date_spec().dn()
    &&& forall|i: int| 0 <= i < s.len() ==> (#[trigger] s[i].date_spec()).valid()
}

impl<Ds: DataSlice> Data<Ds> {
    /// An empty series with a name and a code.
    pub fn new(name: &str, code: &str) -> (r: Self)
        ensures
            r@ == Seq::<Ds>::empty(),
            r.name@ == name@,
            r.code@ == code@,
    {
        Data { name: name.to_owned(), code: code.to_owned(), data: Vec::new() }
    }

    pub fn name(&self) -> (r: &str)
        ensures
            r@ == self.name@,
    {
        self.name.as_str()
    }

    pub fn code(&self) -> (r: &str)
        ensures
            r@ == self.code@,
    {
        self.code.as_str()
    }

    /// The records.
    pub fn data(&self) -> (r: &Vec<Ds>)
        ensures
            r@ == self@,
    {
        &self.data
    }

    /// The record at `i`.
    pub fn index(&self, i: usize) -> (r: &Ds)
        requires
            i < self@.len(),
        ensures
            *r == self@[i as int],
    {
        &self.data[i]
    }

    pub fn len(&self) -> (n: usize)
        ensures
            n == self@.len(),
    {
        self.data.len()
    }

    pub fn is_empty(&self) -> (b: bool)
        ensures
            b <==> self@.len() == 0,
    {
        self.data.len() == 0
    }
}

impl Data<FundSlice> {
    /// Append a dated nav.
    pub fn append(&mut self, date: Date, value: i64)
        ensures
            final(self)@ == old(self)@.push(FundSlice { date, value }),
            final(self).name == old(self).name,
            final(self).code == old(self).code,
    {
        self.data.push(FundSlice { date, value });
    }
}

impl Data<StockSlice> {
    /// Append a dated open/high/low/close/volume record.
    pub fn append(&mut self, date: Date, open: i64, high: i64, low: i64, close: i64, volume: i64)
        ensures
            final(self)@ == old(self)@.push(StockSlice { date, open, high, low, close, volume }),
            final(self).name == old(self).name,
            final(self).code == old(self).code,
    {
        self.data.push(StockSlice { date, open, high, low, close, volume });
    }
}

impl Fund {
    /// The fund view of a stock series: record for record, the date kept and
    /// the close taken as the value.
    pub fn from(stock: &Stock) -> (r: Fund)
        ensures
            r.name == stock.name,
            r.code == stock.code,
            r@.len() == stock@.len(),
            forall|i: int|
                0 <= i < r@.len() ==> {
                    &&& (#[trigger] r@[i]).date == stock@[i].date
                    &&& r@[i].value == stock@[i].close
                },
    {
        let mut data: Vec<FundSlice> = Vec::new();
        let n = stock.len();
        let mut i: usize = 0;
        while i < n
            invariant
                n == stock@.len(),
                i <= n,
                data@.len() == i,
                forall|k: int|
                    0 <= k < i ==> {
                        &&& (#[trigger] data@[k]).date == stock@[k].date
                        &&& data@[k].value == stock@[k].close
                    },
            decreases n - i,
        {
            let s = stock.index(i);
            data.push(FundSlice { date: s.date, value: s.close });
            i = i + 1;
        }
        Fund { name: stock.name.clone(), code: stock.code.clone(), data }
    }
}

/// The error of the external data reader: the file did not have the expected
/// shape.
#[derive(Debug)]
pub struct ReadDataError(pub &'static str);

impl ReadDataError {
    /// The error's message.
    pub fn message(&self) -> (m: &'static str)
        ensures
            m@ == self.0@,
    {
        self.0
    }
}

} // verus!
