pub mod gcd;
pub mod rectangle;
mod front_of_house;

pub use crate::front_of_house::hosting;
use vstd::prelude::*;

verus! {

/// Three parties arrive and are put on the waiting list.
pub fn eat_at_restaurant() {
    hosting::add_to_waitlist();
    hosting::add_to_waitlist();
    hosting::add_to_waitlist();
}

} // verus!
