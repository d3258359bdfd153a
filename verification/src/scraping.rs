//! Request and response shapes of the scraping example worker.
use vstd::prelude::*;

verus! {

/// A page handed to the scraping worker.
pub struct ScrapingRequest {
    html: String,
}

impl ScrapingRequest {
    /// The page's HTML.
    pub closed spec fn page(&self) -> Seq<char> {
        self.html@
    }

    /// A request for the page `html`.
    pub fn new(html: &str) -> (r: Self)
        ensures
            r.page() == html@,
    {
        ScrapingRequest { html: String::from_str(html) }
    }

    /// The page's HTML.
    pub fn html(&self) -> (h: &str)
        ensures
            h@ == self.page(),
    {
        self.html.as_str()
    }
}

/// What the scraping worker reports about a page.
#[derive(Debug)]
pub struct ScrapingResponse {
    pub status: String,
    pub title: String,
    pub links_count: usize,
}

} // verus!
