use webserv::filestore::FileCache;
use webserv::http::{response_for, HttpRequest, HttpStatusCode};

/// Serves one request against a document root at `/srv/html` that holds
/// `index.html` with body "hi"; canonical paths are given as the file
/// system would give them.
fn serve(cache: &mut FileCache, text: &str) -> String {
    let outcome: Result<String, HttpStatusCode> = match HttpRequest::parse(text) {
        Ok(req) => {
            let canonical = match req.req_uri.file.as_str() {
                "./html/index.html" => Some("/srv/html/index.html".to_string()),
                "./html/../secret" => Some("/srv/secret".to_string()),
                _ => None,
            };
            match req.resolve(canonical, "/srv/html") {
                Ok(r) => {
                    cache.open(&r.req_uri.file);
                    Ok(cache.read(&r.req_uri.file, 1, |p: &str| {
                        assert_eq!(p, "/srv/html/index.html");
                        "hi".to_string()
                    }))
                }
                Err(e) => Err(e),
            }
        }
        Err(e) => Err(e),
    };
    response_for(&outcome)
}

#[test]
fn serves_index_and_refusals() {
    let mut cache = FileCache::new("/srv/html");
    assert_eq!(serve(&mut cache, "GET / HTTP/1.1\r\n\r\n"), "HTTP/1.1 200 OK\r\n\r\nhi");
    assert_eq!(
        serve(&mut cache, "GET /missing.html HTTP/1.1\r\n\r\n"),
        "HTTP/1.1 404 Not found\r\n\r\n"
    );
    assert_eq!(serve(&mut cache, "BOGUS / HTTP/1.1\r\n\r\n"), "HTTP/1.1 400 Bad request\r\n\r\n");
    assert_eq!(
        serve(&mut cache, "GET /../secret HTTP/1.1\r\n\r\n"),
        "HTTP/1.1 400 Bad request\r\n\r\n"
    );
    assert_eq!(serve(&mut cache, "GET /index.html HTTP/1.1\r\n\r\n"), "HTTP/1.1 200 OK\r\n\r\nhi");
}
