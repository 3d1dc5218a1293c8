//! Earth orientation parameter (EOP) tables: records keyed by Modified
//! Julian Date, with the bounds of the covered range and the lookup of the
//! records that bracket a date.

use crate::calendar::{
    add_days, days_between, day_number, first_day_number, last_day_number, CalendarDate,
};
use std::collections::BTreeMap;
use vstd::prelude::*;

verus! {

broadcast use {vstd::std_specs::btree::group_btree_axioms, vstd::laws_cmp::group_laws_cmp};

/// The serial number of 1858-11-17, the day of Modified Julian Date 0.
pub open spec fn mjd_epoch_day() -> int {
    day_number(1858, 11, 17)
}

/// The Modified Julian Date of a date: the days since 1858-11-17.
pub open spec fn spec_date_to_mjd(date: CalendarDate) -> int {
    date.spec_day_number() - mjd_epoch_day()
}

/// The Modified Julian Date of the first day a date may have.
pub const MIN_MJD: i64 = -96424705;

/// The Modified Julian Date of the last day a date may have.
pub const MAX_MJD: i64 = 95066823;

/// Whether a Modified Julian Date names a day in the range of dates.
pub open spec fn mjd_in_range(mjd: int) -> bool {
    MIN_MJD <= mjd <= MAX_MJD
}

/// The Modified Julian Dates in range are those of the first to the last
/// day a date may have.
pub proof fn lemma_mjd_range()
    ensures
        first_day_number() == mjd_epoch_day() + MIN_MJD,
        last_day_number() == mjd_epoch_day() + MAX_MJD,
{
}

/// 1858-11-17, the day of Modified Julian Date 0.
fn mjd_epoch() -> (r: CalendarDate)
    ensures
        r.is_valid(),
        r.spec_day_number() == mjd_epoch_day(),
{
    CalendarDate::new(1858, 11, 17).unwrap()
}

/// The Modified Julian Date of `date`.
pub fn date_to_mjd(date: CalendarDate) -> (r: i64)
    ensures
        r == spec_date_to_mjd(date),
{
    proof {
        use_type_invariant(&date);
    }
    let epoch = mjd_epoch();
    days_between(&date, &epoch)
}

/// The date of Modified Julian Date `mjd`, which must name a day in the
/// range of dates.
pub fn mjd_to_date(mjd: i64) -> (r: CalendarDate)
    requires
        mjd_in_range(mjd as int),
    ensures
        r.is_valid(),
        r.spec_day_number() == mjd_epoch_day() + mjd,
{
    let epoch = mjd_epoch();
    proof {
        lemma_mjd_range();
    }
    add_days(&epoch, mjd)
}

/// Law: converting a date to its Modified Julian Date and back gives the
/// same date.
pub proof fn law_date_mjd_round_trip(date: CalendarDate, back: CalendarDate)
    requires
        date.is_valid(),
        back.is_valid(),
        back.spec_day_number() == mjd_epoch_day() + spec_date_to_mjd(date),
    ensures
        back == date,
{
    crate::calendar::lemma_day_number_injective(date, back);
}

/// Law: every date has a Modified Julian Date in the range, and converting
/// a Modified Julian Date to its date and back gives the same number.
pub proof fn law_mjd_date_round_trip(mjd: int, date: CalendarDate)
    requires
        date.is_valid(),
        date.spec_day_number() == mjd_epoch_day() + mjd,
    ensures
        spec_date_to_mjd(date) == mjd,
        mjd_in_range(spec_date_to_mjd(date)),
{
    date.lemma_in_range();
    lemma_mjd_range();
}

/// Why no record can be found for a date.
#[derive(Debug, Clone, Copy, PartialEq, Eq)]
pub enum EopLookupError {
    /// The table holds no record.
    NoDataAvailable,
    /// The date lies before the first or after the last record.
    DateOutOfRange { mjd: i64, start_mjd: i64, end_mjd: i64 },
}

/// The records that answer a lookup.
pub enum Located<'a, T> {
    /// The record of the date itself.
    Exact(&'a T),
    /// The nearest records before and after the date, between which the
    /// caller interpolates.
    Between { before_mjd: i64, before: &'a T, after_mjd: i64, after: &'a T },
}

/// EOP records keyed by Modified Julian Date, with the earliest and latest
/// date kept for bounds checks.
pub struct EopCache<T> {
    data: BTreeMap<i64, T>,
    min_mjd: i64,
    max_mjd: i64,
}

impl<T> EopCache<T> {
    /// The records, by date.
    pub closed spec fn view(&self) -> Map<i64, T> {
        self.data@
    }

    /// The earliest date held (`i64::MAX` when empty).
    pub closed spec fn spec_min_mjd(&self) -> i64 {
        self.min_mjd
    }

    /// The latest date held (`i64::MIN` when empty).
    pub closed spec fn spec_max_mjd(&self) -> i64 {
        self.max_mjd
    }

    /// The kept bounds are the least and greatest dates of the records, or
    /// `i64::MAX` and `i64::MIN` when there are none.
    pub open spec fn wf(&self) -> bool {
        &&& self.view().dom().finite()
        &&& self.view().dom().len() == 0 ==> self.spec_min_mjd() == i64::MAX && self.spec_max_mjd()
            == i64::MIN
        &&& self.view().dom().len() > 0 ==> {
            &&& self.view().contains_key(self.spec_min_mjd())
            &&& self.view().contains_key(self.spec_max_mjd())
            &&& forall|k: i64| #[trigger]
                self.view().contains_key(k) ==> self.spec_min_mjd() <= k <= self.spec_max_mjd()
        }
    }

    /// An empty table.
    pub fn new() -> (r: Self)
        ensures
            r.wf(),
            r.view() == Map::<i64, T>::empty(),
    {
        EopCache { data: BTreeMap::new(), min_mjd: i64::MAX, max_mjd: i64::MIN }
    }

    /// Adds the record of date `mjd`, replacing any record of that date.
    pub fn insert(&mut self, mjd: i64, record: T)
        requires
            old(self).wf(),
        ensures
            final(self).wf(),
            final(self).view() == old(self).view().insert(mjd, record),
            final(self).spec_min_mjd() == if mjd < old(self).spec_min_mjd() {
                mjd
            } else {
                old(self).spec_min_mjd()
            },
            final(self).spec_max_mjd() == if mjd > old(self).spec_max_mjd() {
                mjd
            } else {
                old(self).spec_max_mjd()
            },
    {
        if mjd < self.min_mjd {
            self.min_mjd = mjd;
        }
        if mjd > self.max_mjd {
            self.max_mjd = mjd;
        }
        self.data.insert(mjd, record);
        proof {
            if old(self).view().dom().len() == 0 {
                assert(old(self).view().dom() =~= Set::<i64>::empty());
            }
        }
    }

    /// The record of date `mjd` itself, if there is one.
    pub fn get_exact(&self, mjd: i64) -> (r: Option<&T>)
        ensures
            match r {
                Some(v) => self.view().contains_key(mjd) && *v == self.view()[mjd],
                None => !self.view().contains_key(mjd),
            },
    {
        self.data.get(&mjd)
    }

    /// The number of records.
    pub fn len(&self) -> (r: usize)
        ensures
            r == self.view().dom().len(),
    {
        self.data.len()
    }

    /// Whether the table holds no record.
    pub fn is_empty(&self) -> (r: bool)
        ensures
            r == (self.view().dom().len() == 0),
    {
        self.data.is_empty()
    }

    /// The least and greatest dates held, if any.
    pub fn date_range(&self) -> (r: Option<(i64, i64)>)
        requires
            self.wf(),
        ensures
            self.view().dom().len() == 0 ==> r is None,
            self.view().dom().len() > 0 ==> r == Some(
                (self.spec_min_mjd(), self.spec_max_mjd()),
            ),
    {
        if self.data.is_empty() {
            None
        } else {
            Some((self.min_mjd, self.max_mjd))
        }
    }

    /// The records that give the parameters of date `mjd`: the record of
    /// that date, or else the nearest records on either side of it.
    pub fn locate(&self, mjd: i64) -> (r: Result<Located<'_, T>, EopLookupError>)
        requires
            self.wf(),
        ensures
            self.view().dom().len() == 0 ==> r == Err::<Located<'_, T>, EopLookupError>(
                EopLookupError::NoDataAvailable,
            ),
            self.view().dom().len() > 0 && (mjd < self.spec_min_mjd() || mjd
                > self.spec_max_mjd()) ==> r == Err::<Located<'_, T>, EopLookupError>(
                EopLookupError::DateOutOfRange {
                    mjd,
                    start_mjd: self.spec_min_mjd(),
                    end_mjd: self.spec_max_mjd(),
                },
            ),
            self.view().contains_key(mjd) ==> (r matches Ok(Located::Exact(v)) && *v
                == self.view()[mjd]),
            self.view().dom().len() > 0 && self.spec_min_mjd() <= mjd <= self.spec_max_mjd()
                && !self.view().contains_key(mjd) ==> (r matches Ok(
                Located::Between { before_mjd, before, after_mjd, after },
            ) && before_mjd < mjd < after_mjd && self.view().contains_key(before_mjd)
                && self.view().contains_key(after_mjd) && *before == self.view()[before_mjd]
                && *after == self.view()[after_mjd] && (forall|k: i64| #[trigger]
                self.view().contains_key(k) ==> k <= before_mjd || k >= after_mjd)),
    {
        if self.data.is_empty() {
            return Err(EopLookupError::NoDataAvailable);
        }
        if mjd < self.min_mjd || mjd > self.max_mjd {
            return Err(
                EopLookupError::DateOutOfRange {
                    mjd,
                    start_mjd: self.min_mjd,
                    end_mjd: self.max_mjd,
                },
            );
        }
        if let Some(exact) = self.data.get(&mjd) {
            return Ok(Located::Exact(exact));
        }
        let mut before: i64 = self.min_mjd;
        let mut after: i64 = self.max_mjd;
        for k in it: self.data.keys()
            invariant
                self.wf(),
                self.view().dom().len() > 0,
                !self.view().contains_key(mjd),
                self.spec_min_mjd() <= mjd <= self.spec_max_mjd(),
                self.view().contains_key(before),
                self.view().contains_key(after),
                before < mjd < after,
                forall|j: int| 0 <= j < it.index() ==> *it.seq()[j] <= before || *it.seq()[j] >= after,
        {
            let key = *k;
            if key < mjd && key > before {
                before = key;
            }
            if key > mjd && key < after {
                after = key;
            }
        }
        proof {
            assert forall|key: i64| #[trigger] self.view().contains_key(key) implies key <= before || key
                >= after by {
                assert(self.data@.dom().contains(key));
            }
        }
        let b = self.data.get(&before).unwrap();
        let a = self.data.get(&after).unwrap();
        Ok(Located::Between { before_mjd: before, before: b, after_mjd: after, after: a })
    }
}

/// Law: after a record is added for a date, the table holds that record
/// for that date and leaves every other date as it was; a lookup of the
/// date ([`EopCache::get_exact`], [`EopCache::locate`]) then returns it.
pub proof fn law_read_after_insert<T>(before: Map<i64, T>, mjd: i64, record: T)
    ensures
        before.insert(mjd, record).contains_key(mjd),
        before.insert(mjd, record)[mjd] == record,
        forall|k: i64|
            k != mjd ==> (#[trigger] before.insert(mjd, record).contains_key(k)
                == before.contains_key(k) && (before.contains_key(k) ==> before.insert(
                mjd,
                record,
            )[k] == before[k])),
{
}

/// Law: a table that holds records covers exactly the dates from its
/// earliest to its latest record; a date outside is refused, one inside is
/// answered by its own record or by the two records that bracket it.
pub proof fn law_covered_range<T>(c: EopCache<T>)
    requires
        c.wf(),
        c.view().dom().len() > 0,
    ensures
        c.view().contains_key(c.spec_min_mjd()),
        c.view().contains_key(c.spec_max_mjd()),
        forall|k: i64| #[trigger] c.view().contains_key(k) ==> c.spec_min_mjd() <= k <= c.spec_max_mjd(),
{
}

} // verus!
