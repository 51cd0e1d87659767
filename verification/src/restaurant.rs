//! Front-of-house walkthrough: the stations a guest passes through. Each
//! station is a stub; `eat_at_restaurant` walks a party of three onto the
//! waitlist.

use vstd::prelude::*;

verus! {

/// Put one guest on the waitlist.
pub fn add_to_waitlist() {
}

/// Seat a waiting guest at a table.
pub fn seat_at_table() {
}

/// Take a seated guest's order.
pub fn take_order() {
}

/// Serve a prepared order.
pub fn serve_order() {
}

/// Take payment for a served order.
pub fn take_payment() {
}

/// A party of three arrives: each guest joins the waitlist.
pub fn eat_at_restaurant() {
    add_to_waitlist();
    add_to_waitlist();
    add_to_waitlist();
}

} // verus!
