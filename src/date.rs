use vstd::prelude::*;

verus! {

/// The date on which a payment was made.
///
/// A date is modelled by its day number; only differences between day
/// numbers matter.
pub trait PaymentDate: Sized + Copy {
    /// The day number of this date in the implementor's calendar.
    spec fn day_number(self) -> int;

    /// The number of days from `other` to this date (positive when this
    /// date is later).
    fn days_since(self, other: Self) -> (r: i32)
        requires
            i32::MIN <= self.day_number() - other.day_number() <= i32::MAX,
        ensures
            r as int == self.day_number() - other.day_number(),
    ;
}

/// A plain day number is a date: day `n + 1` follows day `n`.
impl PaymentDate for i32 {
    open spec fn day_number(self) -> int {
        self as int
    }

    fn days_since(self, other: i32) -> (r: i32) {
        self - other
    }
}

/// Every two of `dates` lie at most `i32::MAX` days apart.
pub open spec fn spans_fit<T: PaymentDate>(dates: Seq<T>) -> bool {
    forall|i: int, j: int|
        0 <= i < dates.len() && 0 <= j < dates.len() ==> i32::MIN <= #[trigger] dates[i].day_number()
            - #[trigger] dates[j].day_number() <= i32::MAX
}

} // verus!
