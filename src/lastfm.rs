//! Requests to the Last.fm API: their URLs, and which pages a fetch asks for.

use crate::models::{count_value, Attr, User};
use crate::numbers::{append_numeral, numeral_of};
use vstd::prelude::*;

verus! {

/// At most this many page requests are in flight at once.
pub const PARALLEL_REQUESTS: usize = 50;

/// The largest page size the service accepts.
pub const MAX_LIMIT: i32 = 1000;

/// The `user.getRecentTracks` request for one page of a user's history between
/// two instants.
pub open spec fn recent_tracks_url(
    user: Seq<char>,
    api_key: Seq<char>,
    page: int,
    limit: int,
    from: int,
    to: int,
) -> Seq<char> {
    "http://ws.audioscrobbler.com/2.0/?method=user.getRecentTracks&user="@ + user
        + "&api_key="@ + api_key + "&format=json&extended=1&page="@ + numeral_of(page)
        + "&limit="@ + numeral_of(limit) + "&from="@ + numeral_of(from) + "&to="@ + numeral_of(to)
}

/// The `user.getInfo` request for a user's profile.
pub open spec fn profile_url(user: Seq<char>, api_key: Seq<char>) -> Seq<char> {
    "http://ws.audioscrobbler.com/2.0/?method=user.getInfo&user="@ + user + "&api_key="@
        + api_key + "&format=json"@
}

pub fn build_request_url(user: &User, api_key: &str, page: i32, limit: i32, from: i64, to: i64) -> (r:
    String)
    ensures
        r@ == recent_tracks_url(
            user.name@,
            api_key@,
            page as int,
            limit as int,
            from as int,
            to as int,
        ),
{
    let mut url = String::from_str(
        "http://ws.audioscrobbler.com/2.0/?method=user.getRecentTracks&user=",
    );
    url.append(user.name.as_str());
    url.append("&api_key=");
    url.append(api_key);
    url.append("&format=json&extended=1&page=");
    append_numeral(&mut url, page as i64);
    url.append("&limit=");
    append_numeral(&mut url, limit as i64);
    url.append("&from=");
    append_numeral(&mut url, from);
    url.append("&to=");
    append_numeral(&mut url, to);
    url
}

pub fn build_profile_url(username: &str, api_key: &str) -> (r: String)
    ensures
        r@ == profile_url(username@, api_key@),
{
    let mut url = String::from_str("http://ws.audioscrobbler.com/2.0/?method=user.getInfo&user=");
    url.append(username);
    url.append("&api_key=");
    url.append(api_key);
    url.append("&format=json");
    url
}

/// The pages from `first` to `last`, both included.
pub open spec fn page_range(first: int, last: int) -> Seq<int> {
    Seq::new(if last >= first { (last - first + 1) as nat } else { 0 }, |i: int| first + i)
}

/// The pages a fetch asks for once the probe has reported the listing's size:
/// page 1 alone where the listing holds a single entry on a single page, and
/// otherwise every page from the requested one through the last.
pub open spec fn planned_pages(first_page: int, total_pages: int, total_entries: int) -> Seq<int> {
    if total_pages == 1 && total_entries == 1 {
        seq![1]
    } else {
        page_range(first_page, total_pages)
    }
}

/// The requests of a fetch, one per planned page, in page order.
pub fn plan_requests(
    user: &User,
    api_key: &str,
    page: i32,
    limit: i32,
    from: i64,
    to: i64,
    metadata: &Attr,
) -> (r: Vec<String>)
    ensures
        r@.len() == planned_pages(
            page as int,
            count_value(metadata.total_pages@),
            count_value(metadata.total@),
        ).len(),
        forall|i: int|
            0 <= i < r@.len() ==> #[trigger] r@[i]@ == recent_tracks_url(
                user.name@,
                api_key@,
                planned_pages(
                    page as int,
                    count_value(metadata.total_pages@),
                    count_value(metadata.total@),
                )[i],
                limit as int,
                from as int,
                to as int,
            ),
        count_value(metadata.total_pages@) == 1 && count_value(metadata.total@) == 1 ==> r@.len() == 1,
{
    let total_pages = metadata.total_pages();
    let ghost plan = planned_pages(page as int, total_pages as int, count_value(metadata.total@));
    let mut urls: Vec<String> = Vec::new();
    if metadata.single_page() && metadata.single_track() {
        urls.push(build_request_url(user, api_key, 1, limit, from, to));
        return urls;
    }
    let mut p: i64 = page as i64;
    while p <= total_pages as i64
        invariant
            plan == page_range(page as int, total_pages as int),
            page <= p <= total_pages + 1 || (p == page && page > total_pages),
            urls@.len() == p - page,
            forall|i: int|
                0 <= i < urls@.len() ==> #[trigger] urls@[i]@ == recent_tracks_url(
                    user.name@,
                    api_key@,
                    plan[i],
                    limit as int,
                    from as int,
                    to as int,
                ),
        decreases total_pages + 1 - p,
    {
        urls.push(build_request_url(user, api_key, p as i32, limit, from, to));
        p = p + 1;
    }
    urls
}

} // verus!
