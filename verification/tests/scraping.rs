use runpy::scraping::{ScrapingRequest, ScrapingResponse};

#[test]
fn scraping_request_keeps_its_page() {
    let request = ScrapingRequest::new("<html><title>t</title></html>");
    assert_eq!(request.html(), "<html><title>t</title></html>");
}

#[test]
fn scraping_response_fields_are_public() {
    let response = ScrapingResponse {
        status: "ok".to_string(),
        title: "Example".to_string(),
        links_count: 3,
    };
    assert_eq!(response.status, "ok");
    assert_eq!(response.title, "Example");
    assert_eq!(response.links_count, 3);
}
