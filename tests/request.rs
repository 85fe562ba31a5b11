use index_server::decimal::parse_usize;
use index_server::request::{
    document_response, frame_response, handle_document_request, handle_search_request,
    search_response,
};
use index_server::{process_request, Document, HttpStatus, InvertedIndex, Response};

fn corpus() -> InvertedIndex {
    let mut index = InvertedIndex::new();
    index.add_document(Document { name: "a.txt".to_string(), content: "Rust is fast".to_string() });
    index.add_document(Document { name: "b.txt".to_string(), content: "Go is simple".to_string() });
    index
}

fn error_of(reply: &(HttpStatus, Response)) -> (HttpStatus, String) {
    match &reply.1 {
        Response::Error(e) => (reply.0, e.error.clone()),
        other => panic!("not an error reply: {:?}", other),
    }
}

#[test]
fn short_request_line_is_bad_request() {
    let index = corpus();
    assert_eq!(error_of(&process_request("", &index)), (HttpStatus::BadRequest, "Invalid Request".to_string()));
    assert_eq!(error_of(&process_request("GET /", &index)), (HttpStatus::BadRequest, "Invalid Request".to_string()));
}

#[test]
fn non_get_is_bad_request() {
    let index = corpus();
    assert_eq!(
        error_of(&process_request("POST / HTTP/1.1", &index)),
        (HttpStatus::BadRequest, "Invalid Request Method".to_string())
    );
}

#[test]
fn root_lists_routes() {
    let index = corpus();
    let reply = process_request("GET / HTTP/1.1", &index);
    assert_eq!(reply.0, HttpStatus::Success);
    match reply.1 {
        Response::Help(w) => {
            assert_eq!(w.message, "Welcome to the Inverted Index Search Server");
            assert_eq!(w.endpoints, vec!["/search?q=<query>", "/document?docID=<id>"]);
        }
        other => panic!("unexpected reply {:?}", other),
    }
}

#[test]
fn search_route_decodes_the_query() {
    let index = corpus();
    let reply = process_request("GET /search?q=Rust%20fast HTTP/1.1", &index);
    assert_eq!(reply.0, HttpStatus::Success);
    match reply.1 {
        Response::Search(s) => {
            assert_eq!(s.query, "Rust fast");
            assert_eq!(s.total_results, 1);
            assert_eq!(s.results[0].doc_id, 0);
            assert_eq!(s.results[0].matches, 1);
        }
        other => panic!("unexpected reply {:?}", other),
    }
}

#[test]
fn search_without_results_is_success() {
    let index = corpus();
    let reply = process_request("GET /search?q=slow HTTP/1.1", &index);
    assert_eq!(reply.0, HttpStatus::Success);
    match reply.1 {
        Response::Search(s) => {
            assert_eq!(s.total_results, 0);
            assert!(s.results.is_empty());
        }
        other => panic!("unexpected reply {:?}", other),
    }
}

#[test]
fn undecodable_query_is_bad_request() {
    let index = corpus();
    assert_eq!(
        error_of(&handle_search_request("%FF", &index)),
        (HttpStatus::BadRequest, "Invalid Search Query".to_string())
    );
    assert_eq!(
        error_of(&search_response(None, &index)),
        (HttpStatus::BadRequest, "Invalid Search Query".to_string())
    );
}

#[test]
fn search_response_runs_the_decoded_query() {
    let index = corpus();
    match search_response(Some("is".to_string()), &index).1 {
        Response::Search(s) => assert_eq!(s.total_results, 2),
        other => panic!("unexpected reply {:?}", other),
    }
}

#[test]
fn document_route_returns_the_document() {
    let index = corpus();
    let reply = process_request("GET /document?docID=1 HTTP/1.1", &index);
    assert_eq!(reply.0, HttpStatus::Success);
    match reply.1 {
        Response::Document(d) => {
            assert_eq!(d.document_id, 1);
            assert_eq!(d.filename, "b.txt");
            assert_eq!(d.content, "Go is simple");
        }
        other => panic!("unexpected reply {:?}", other),
    }
}

#[test]
fn encoded_document_id_is_decoded() {
    let index = corpus();
    assert_eq!(handle_document_request("%31", &index).0, HttpStatus::Success);
}

#[test]
fn unparsable_document_id_is_bad_request() {
    let index = corpus();
    assert_eq!(
        error_of(&process_request("GET /document?docID=abc HTTP/1.1", &index)),
        (HttpStatus::BadRequest, "Invalid Document ID".to_string())
    );
    assert_eq!(
        error_of(&document_response(None, &index)),
        (HttpStatus::BadRequest, "Invalid Document ID".to_string())
    );
}

#[test]
fn unknown_document_id_is_not_found() {
    let index = corpus();
    assert_eq!(
        error_of(&process_request("GET /document?docID=99 HTTP/1.1", &index)),
        (HttpStatus::NotFound, "No file with specified docID was found".to_string())
    );
    assert_eq!(
        error_of(&document_response(Some("2".to_string()), &index)),
        (HttpStatus::NotFound, "No file with specified docID was found".to_string())
    );
}

#[test]
fn unknown_path_is_not_found() {
    let index = corpus();
    assert_eq!(
        error_of(&process_request("GET /nothing HTTP/1.1", &index)),
        (HttpStatus::NotFound, "404 Not Found".to_string())
    );
}

#[test]
fn parse_usize_follows_str_parse() {
    for s in ["0", "42", "+7", "007", "", "+", "-1", "4a", " 4", "18446744073709551616", "99999999999999999999999"] {
        assert_eq!(parse_usize(s), s.parse::<usize>().ok(), "input {:?}", s);
    }
    assert_eq!(parse_usize(&usize::MAX.to_string()), Some(usize::MAX));
}

#[test]
fn frame_counts_body_bytes() {
    assert_eq!(
        frame_response(HttpStatus::Success, "{\"a\":\"é\"}"),
        "HTTP/1.1 200 OK\r\nContent-Type: application/json\r\nContent-Length: 10\r\n\r\n{\"a\":\"é\"}"
    );
    assert_eq!(
        frame_response(HttpStatus::NotFound, ""),
        "HTTP/1.1 404 NOT FOUND\r\nContent-Type: application/json\r\nContent-Length: 0\r\n\r\n"
    );
    assert_eq!(
        frame_response(HttpStatus::BadRequest, "x"),
        "HTTP/1.1 400 BAD REQUEST\r\nContent-Type: application/json\r\nContent-Length: 1\r\n\r\nx"
    );
}
