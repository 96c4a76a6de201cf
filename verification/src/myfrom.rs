//! Plain widening conversions between the machine values the appenders
//! move around.

use vstd::prelude::*;

verus! {

/// A total conversion from `T` into the implementing type.
pub trait MyFrom<T>: Sized {
    fn my_from(t: T) -> (r: Self);
}

impl MyFrom<i32> for i64 {
    fn my_from(t: i32) -> (r: Self)
        ensures
            r as int == t as int,
    {
        t as i64
    }
}

impl MyFrom<i16> for i32 {
    fn my_from(t: i16) -> (r: Self)
        ensures
            r as int == t as int,
    {
        t as i32
    }
}

impl MyFrom<i8> for i32 {
    fn my_from(t: i8) -> (r: Self)
        ensures
            r as int == t as int,
    {
        t as i32
    }
}

impl MyFrom<u16> for u32 {
    fn my_from(t: u16) -> (r: Self)
        ensures
            r as int == t as int,
    {
        t as u32
    }
}

impl MyFrom<u32> for u64 {
    fn my_from(t: u32) -> (r: Self)
        ensures
            r as int == t as int,
    {
        t as u64
    }
}

/// A value that may stand for an optional value: either a plain value,
/// or an `Option` of one.
pub trait Nullable<T>: Sized {
    fn as_option(self) -> (r: Option<T>);
}

impl<T> Nullable<T> for Option<T> {
    fn as_option(self) -> (r: Option<T>)
        ensures
            r == self,
    {
        self
    }
}

} // verus!
