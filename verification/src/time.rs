use vstd::prelude::*;

verus! {

/// A point in simulated time, measured in whole years.
#[derive(Copy, Clone, Debug, PartialEq, Eq, Hash, Structural)]
pub struct Date(pub u32);

impl Date {
    pub fn new(year: u32) -> (r: Self)
        ensures
            r.0 == year,
    {
        Date(year)
    }

    pub fn get_year(&self) -> (r: u32)
        ensures
            r == self.0,
    {
        self.0
    }

    /// The number of whole years from `earlier` to `self`.
    pub fn get_years_since(&self, earlier: Date) -> (r: u32)
        requires
            earlier.0 <= self.0,
        ensures
            r == self.0 - earlier.0,
    {
        self.0 - earlier.0
    }

    /// Advance the date by one year.
    pub fn increase_year(&mut self)
        requires
            old(self).0 < u32::MAX,
        ensures
            final(self).0 == old(self).0 + 1,
    {
        self.0 = self.0 + 1;
    }

    /// Advance the date by the given number of years.
    pub fn increase_by(&mut self, years: u32)
        requires
            old(self).0 + years <= u32::MAX,
        ensures
            final(self).0 == old(self).0 + years,
    {
        self.0 = self.0 + years;
    }
}

impl Default for Date {
    /// The calendar starts at year zero.
    fn default() -> (r: Self)
        ensures
            r.0 == 0,
    {
        Date(0)
    }
}

} // verus!
