//! Subscription-user endpoints.

use vstd::prelude::*;
use crate::error::ApiError;
use crate::routes::auth::is_validation_error;
use crate::rules::{
    is_valid_username, is_valid_username_chars, normalize_links_preserve_order, normalize_links_result,
    result_view, string_views, username_ok,
};
use crate::text::{chars_of, contains_chars, contains_seq, decimal, decimal_chars, string_of, trim, trim_chars};

verus! {

/// Refuses a username from a request path that is not valid.
pub fn require_valid_username(username: &str) -> (r: Result<(), ApiError>)
    ensures
        username_ok(username@) ==> r is Ok,
        !username_ok(username@) ==> (r matches Err(e) && is_validation_error(
            e,
            "username"@,
            "invalid username"@,
        )),
{
    if !is_valid_username(username) {
        return Err(ApiError::validation("username", "invalid username"));
    }
    Ok(())
}

/// The username of a creation request: trimmed, and refused when not valid.
pub fn new_username(raw: &str) -> (r: Result<String, ApiError>)
    ensures
        username_ok(trim(raw@)) ==> (r matches Ok(u) && u@ == trim(raw@)),
        !username_ok(trim(raw@)) ==> (r matches Err(e) && is_validation_error(
            e,
            "username"@,
            "invalid username"@,
        )),
{
    let chars = chars_of(raw);
    let trimmed = trim_chars(&chars);
    if !is_valid_username_chars(&trimmed) {
        return Err(ApiError::validation("username", "invalid username"));
    }
    Ok(string_of(&trimmed))
}

pub open spec fn too_many_users_message(max_users: nat) -> Seq<char> {
    "maximum "@ + decimal(max_users) + " users allowed"@
}

fn too_many_users(field: &str, max_users: usize) -> (r: ApiError)
    ensures
        is_validation_error(r, field@, too_many_users_message(max_users as nat)),
{
    let mut m = "maximum ".to_owned();
    let digits = decimal_chars(max_users as u64);
    let digits_text = string_of(&digits);
    m.append(digits_text.as_str());
    m.append(" users allowed");
    ApiError::validation(field, m.as_str())
}

/// Refuses a new user once the number of users (as the database counts
/// them) has reached the limit.
pub fn check_user_capacity(user_count: i64, max_users: usize) -> (r: Result<(), ApiError>)
    ensures
        (user_count as usize) < max_users ==> r is Ok,
        (user_count as usize) >= max_users ==> (r matches Err(e) && is_validation_error(
            e,
            "username"@,
            too_many_users_message(max_users as nat),
        )),
{
    if user_count as usize >= max_users {
        return Err(too_many_users("username", max_users));
    }
    Ok(())
}

/// Whether a database error message reports a uniqueness violation, which
/// creating a user answers with "username already exists".
pub fn is_unique_violation(message: &str) -> (r: bool)
    ensures
        r == contains_seq(message@, "UNIQUE"@),
{
    let hay = chars_of(message);
    let needle = chars_of("UNIQUE");
    contains_chars(&hay, &needle)
}

/// The answer to creating a user whose name is already taken.
pub fn username_taken() -> (r: ApiError)
    ensures
        is_validation_error(r, "username"@, "username already exists"@),
{
    ApiError::validation("username", "username already exists")
}

/// The links to store for a user: the path username must be valid, then the
/// links are normalized; a normalization failure is a validation error on
/// `links`.
pub fn prepare_links(username: &str, links: &Vec<String>, max_links: usize) -> (r: Result<Vec<String>, ApiError>)
    ensures
        !username_ok(username@) ==> (r matches Err(e) && is_validation_error(
            e,
            "username"@,
            "invalid username"@,
        )),
        username_ok(username@) ==> match normalize_links_result(string_views(links@), max_links as nat) {
            Ok(v) => r matches Ok(out) && string_views(out@) == v,
            Err(m) => r matches Err(e) && is_validation_error(e, "links"@, m),
        },
{
    require_valid_username(username)?;
    match normalize_links_preserve_order(links, max_links) {
        Ok(v) => Ok(v),
        Err(m) => Err(ApiError::validation("links", m.as_str())),
    }
}

/// The first problem with an order's entries: the first entry that is not
/// a valid username or that repeats an earlier one.
pub open spec fn first_order_problem(order: Seq<Seq<char>>) -> Option<Seq<char>>
    decreases order.len(),
{
    if order.len() == 0 {
        None
    } else {
        match first_order_problem(order.drop_last()) {
            Some(m) => Some(m),
            None => {
                let u = order.last();
                if !username_ok(u) {
                    Some("invalid username: "@ + u)
                } else if order.drop_last().contains(u) {
                    Some("duplicate username: "@ + u)
                } else {
                    None
                }
            },
        }
    }
}

/// What checking a new user order's payload gives: an empty order, an order
/// longer than the user limit, or the first bad entry is refused.
pub open spec fn order_payload_problem(order: Seq<Seq<char>>, max_users: nat) -> Option<Seq<char>> {
    if order.len() == 0 {
        Some("must not be empty"@)
    } else if order.len() > max_users {
        Some(too_many_users_message(max_users))
    } else {
        first_order_problem(order)
    }
}

fn contains_string(list: &Vec<String>, end: usize, t: &String) -> (r: bool)
    requires
        end <= list.len(),
    ensures
        r == string_views(list@).take(end as int).contains(t@),
{
    let mut i: usize = 0;
    while i < end
        invariant
            i <= end <= list.len(),
            forall|j: int| 0 <= j < i ==> list@[j]@ != t@,
        decreases end - i,
    {
        if list[i] == *t {
            proof {
                assert(string_views(list@).take(end as int)[i as int] == t@);
            }
            return true;
        }
        i += 1;
    }
    proof {
        if string_views(list@).take(end as int).contains(t@) {
            let k = choose|k: int| 0 <= k < end && string_views(list@).take(end as int)[k] == t@;
            assert(list@[k]@ != t@);
        }
    }
    false
}

/// Checks a new user order's payload.
pub fn check_order_payload(order: &Vec<String>, max_users: usize) -> (r: Result<(), ApiError>)
    ensures
        match order_payload_problem(string_views(order@), max_users as nat) {
            Some(m) => r matches Err(e) && is_validation_error(e, "order"@, m),
            None => r is Ok,
        },
{
    if order.len() == 0 {
        return Err(ApiError::validation("order", "must not be empty"));
    }
    if order.len() > max_users {
        return Err(too_many_users("order", max_users));
    }
    let ghost all = string_views(order@);
    let mut i: usize = 0;
    while i < order.len()
        invariant
            i <= order.len(),
            all == string_views(order@),
            0 < order.len() <= max_users,
            first_order_problem(all.take(i as int)) is None,
        decreases order.len() - i,
    {
        let u = &order[i];
        proof {
            assert(all.take(i + 1).drop_last() =~= all.take(i as int));
            assert(all.take(i + 1).last() == u@);
            assert(all.take(i as int) =~= string_views(order@).take(i as int));
        }
        if !is_valid_username(u.as_str()) {
            let mut m = "invalid username: ".to_owned();
            m.append(u.as_str());
            proof {
                assert(first_order_problem(all.take(i + 1)) == Some(m@));
                lemma_first_order_problem_prefix(all, i as int + 1);
            }
            return Err(ApiError::validation("order", m.as_str()));
        }
        if contains_string(order, i, u) {
            let mut m = "duplicate username: ".to_owned();
            m.append(u.as_str());
            proof {
                assert(all.take(i + 1).drop_last().contains(u@));
                assert(first_order_problem(all.take(i + 1)) == Some(m@));
                lemma_first_order_problem_prefix(all, i as int + 1);
            }
            return Err(ApiError::validation("order", m.as_str()));
        }
        i += 1;
    }
    proof {
        assert(all.take(order.len() as int) =~= all);
    }
    Ok(())
}

proof fn lemma_first_order_problem_prefix(order: Seq<Seq<char>>, k: int)
    requires
        0 <= k <= order.len(),
        first_order_problem(order.take(k)) is Some,
    ensures
        first_order_problem(order) == first_order_problem(order.take(k)),
    decreases order.len() - k,
{
    if k < order.len() {
        assert(order.take(k + 1).drop_last() =~= order.take(k));
        lemma_first_order_problem_prefix(order, k + 1);
    } else {
        assert(order.take(k) =~= order);
    }
}

/// The order names exactly the existing users.
pub open spec fn order_covers(order: Seq<Seq<char>>, existing: Seq<Seq<char>>) -> bool {
    order.to_set() == existing.to_set()
}

/// Refuses an order that does not name exactly the existing users.
pub fn check_order_covers(order: &Vec<String>, existing: &Vec<String>) -> (r: Result<(), ApiError>)
    ensures
        order_covers(string_views(order@), string_views(existing@)) ==> r is Ok,
        !order_covers(string_views(order@), string_views(existing@)) ==> (r matches Err(e)
            && is_validation_error(e, "order"@, "order must include every existing user exactly once"@)),
{
    let ghost o = string_views(order@);
    let ghost x = string_views(existing@);
    let mut i: usize = 0;
    while i < order.len()
        invariant
            i <= order.len(),
            o == string_views(order@),
            x == string_views(existing@),
            forall|j: int| 0 <= j < i ==> x.contains(#[trigger] o[j]),
        decreases order.len() - i,
    {
        if !contains_string(existing, existing.len(), &order[i]) {
            proof {
                assert(x.take(existing.len() as int) =~= x);
                assert(o.to_set().contains(o[i as int]));
                assert(!x.to_set().contains(o[i as int]));
            }
            return Err(ApiError::validation("order", "order must include every existing user exactly once"));
        }
        proof {
            assert(x.take(existing.len() as int) =~= x);
        }
        i += 1;
    }
    let mut k: usize = 0;
    while k < existing.len()
        invariant
            k <= existing.len(),
            o == string_views(order@),
            x == string_views(existing@),
            forall|j: int| 0 <= j < o.len() ==> x.contains(#[trigger] o[j]),
            forall|j: int| 0 <= j < k ==> o.contains(#[trigger] x[j]),
        decreases existing.len() - k,
    {
        if !contains_string(order, order.len(), &existing[k]) {
            proof {
                assert(o.take(order.len() as int) =~= o);
                assert(x.to_set().contains(x[k as int]));
                assert(!o.to_set().contains(x[k as int]));
            }
            return Err(ApiError::validation("order", "order must include every existing user exactly once"));
        }
        proof {
            assert(o.take(order.len() as int) =~= o);
        }
        k += 1;
    }
    proof {
        assert forall|s: Seq<char>| o.to_set().contains(s) == x.to_set().contains(s) by {
            if o.to_set().contains(s) {
                let j = choose|j: int| 0 <= j < o.len() && o[j] == s;
                assert(x.contains(o[j]));
            }
            if x.to_set().contains(s) {
                let j = choose|j: int| 0 <= j < x.len() && x[j] == s;
                assert(o.contains(x[j]));
            }
        }
        assert(o.to_set() =~= x.to_set());
    }
    Ok(())
}

/// An order whose entries pass the checks names no user twice.
proof fn lemma_no_problem_distinct(order: Seq<Seq<char>>)
    requires
        first_order_problem(order) is None,
    ensures
        order.no_duplicates(),
        forall|i: int| 0 <= i < order.len() ==> username_ok(#[trigger] order[i]),
    decreases order.len(),
{
    if order.len() > 0 {
        let p = order.drop_last();
        lemma_no_problem_distinct(p);
        assert forall|i: int, j: int| 0 <= i < order.len() && 0 <= j < order.len() && i != j implies order[i]
            != order[j] by {
            if j == order.len() - 1 {
                if order[i] == order[j] {
                    assert(p[i] == order[i]);
                    assert(p.contains(order.last()));
                }
            } else if i == order.len() - 1 {
                if order[i] == order[j] {
                    assert(p[j] == order[j]);
                    assert(p.contains(order.last()));
                }
            } else {
                assert(p[i] == order[i] && p[j] == order[j]);
            }
        }
        assert forall|i: int| 0 <= i < order.len() implies username_ok(#[trigger] order[i]) by {
            if i < p.len() {
                assert(p[i] == order[i]);
            }
        }
    }
}

/// A user order accepted by both checks lists every existing user exactly
/// once, and nothing else, and each entry is a valid username.
pub proof fn lemma_accepted_order_is_permutation(order: Seq<Seq<char>>, max_users: nat, existing: Seq<Seq<char>>)
    requires
        order_payload_problem(order, max_users) is None,
        order_covers(order, existing),
    ensures
        order.no_duplicates(),
        order.to_set() == existing.to_set(),
        0 < order.len() <= max_users,
        forall|i: int| 0 <= i < order.len() ==> username_ok(#[trigger] order[i]),
{
    lemma_no_problem_distinct(order);
}

} // verus!
