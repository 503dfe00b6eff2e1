//! The Hacker News search and items endpoints and the request addresses
//! built on them.
use vstd::prelude::*;
use crate::text::{decimal, push_decimal};

verus! {

/// The search endpoint.
pub const ALGOLIA_API_URL: &'static str = "https://hn.algolia.com/api/v1/search";

/// The items endpoint (one story with its comment tree).
pub const ALGOLIA_ITEMS_URL: &'static str = "https://hn.algolia.com/api/v1/items";

/// The number of seconds in a day.
pub const SECONDS_PER_DAY: u64 = 86400;

/// The address of page `page` of the stories posted in the last day, given
/// the current time in seconds since the Unix epoch.
pub fn top_stories_url(page: u32, now_secs: u64) -> (url: String)
    requires
        now_secs >= SECONDS_PER_DAY,
    ensures
        url@ == ALGOLIA_API_URL@ + "?tags=story&hitsPerPage=20&page="@ + decimal(page as nat)
            + "&numericFilters=created_at_i>"@ + decimal((now_secs - SECONDS_PER_DAY) as nat),
{
    let mut url = String::from_str(ALGOLIA_API_URL);
    url.append("?tags=story&hitsPerPage=20&page=");
    push_decimal(&mut url, page as u64);
    url.append("&numericFilters=created_at_i>");
    push_decimal(&mut url, now_secs - SECONDS_PER_DAY);
    url
}

/// The address of page `page` of the front-page stories.
pub fn front_page_stories_url(page: u32) -> (url: String)
    ensures
        url@ == ALGOLIA_API_URL@ + "?tags=front_page_story&hitsPerPage=20&page="@ + decimal(
            page as nat,
        ),
{
    let mut url = String::from_str(ALGOLIA_API_URL);
    url.append("?tags=front_page_story&hitsPerPage=20&page=");
    push_decimal(&mut url, page as u64);
    url
}

/// The address of the story `story_id` with its comments.
pub fn comments_url(story_id: &str) -> (url: String)
    ensures
        url@ == ALGOLIA_ITEMS_URL@ + "/"@ + story_id@,
{
    let mut url = String::from_str(ALGOLIA_ITEMS_URL);
    url.append("/");
    url.append(story_id);
    url
}

} // verus!
