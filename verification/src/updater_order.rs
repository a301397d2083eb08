//! The three-way comparison of versions, kept apart from the casts of the parsing code.
use crate::updater::{
    normalize_version, normalize_version_spec, UpdateCheckResult,max_len, order_at, parts_order_from, version_order, version_parts, version_parts_spec};
use std::cmp::Ordering;
use vstd::prelude::*;

verus! {

/// Compares two versions part by part; `1.0` and `1.0.0` are equal.
pub fn compare_versions(left: &str, right: &str) -> (r: Ordering)
    ensures
        (r == Ordering::Less) == (version_order(left@, right@) < 0),
        (r == Ordering::Equal) == (version_order(left@, right@) == 0),
        (r == Ordering::Greater) == (version_order(left@, right@) > 0),
{
    let a = version_parts(left);
    let b = version_parts(right);
    let n = if a.len() >= b.len() { a.len() } else { b.len() };
    let mut i: usize = 0;
    while i < n
        invariant
            n == max_len(a@, b@),
            i <= n,
            a@ == version_parts_spec(left@),
            b@ == version_parts_spec(right@),
            parts_order_from(a@, b@, 0) == order_at(a@, b@, i),
        decreases n - i,
    {
        let x = if i < a.len() { a[i] } else { 0 };
        let y = if i < b.len() { b[i] } else { 0 };
        if x < y {
            return Ordering::Less;
        }
        if x > y {
            return Ordering::Greater;
        }
        i = i + 1;
    }
    Ordering::Equal
}


/// The result of an update check, given the running version and the fields of the
/// latest release: the tag is normalised to a version, and an update is due exactly
/// when that version orders after the running one.
pub fn update_result_from_release(
    current_version: String,
    tag_name: String,
    name: Option<String>,
    html_url: String,
    published_at: Option<String>,
) -> (r: UpdateCheckResult)
    ensures
        r.current_version@ == current_version@,
        r.latest_version matches Some(v) && v@ == normalize_version_spec(tag_name@),
        r.latest_tag == Some(tag_name),
        r.release_name == name,
        r.release_url == Some(html_url),
        r.published_at == published_at,
        r.has_update == (version_order(normalize_version_spec(tag_name@), current_version@) > 0),
{
    let latest = normalize_version(tag_name.as_str());
    let order = compare_versions(latest.as_str(), current_version.as_str());
    let has_update = match order {
        Ordering::Greater => true,
        _ => false,
    };
    UpdateCheckResult {
        current_version,
        latest_version: Some(latest),
        latest_tag: Some(tag_name),
        release_name: name,
        release_url: Some(html_url),
        published_at,
        has_update,
    }
}

} // verus!
