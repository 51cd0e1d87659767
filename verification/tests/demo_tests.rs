use worker_pool::restaurant::add_to_waitlist;
use worker_pool::restaurant::eat_at_restaurant;
use worker_pool::user::build_user;

#[test]
fn build_user_keeps_fields() {
    let user = build_user(String::from("aaa.com"), String::from("tas"));
    assert_eq!(user.email, "aaa.com");
    assert_eq!(user.username, "tas");
}

#[test]
fn restaurant_walkthrough_runs() {
    add_to_waitlist();
    eat_at_restaurant();
}
