use std::path::Path;
use picrawler::text::{decimal_string, str_eq};
use picrawler::webui::{bind_address, content_type, display_host, is_wildcard_bind, response_header, route, Route};

fn file(p: &str) -> Route {
    Route::File(p.to_string())
}

#[test]
fn routes() {
    assert_eq!(route("GET / HTTP/1.1\r\n"), file("index.html"));
    assert_eq!(route("GET /config.json HTTP/1.1"), Route::Config);
    assert_eq!(route("GET /config.json?x=1 HTTP/1.1"), Route::Config);
    assert_eq!(route("GET /app.js?v=2 HTTP/1.1"), file("app.js"));
    assert_eq!(route("GET //css/site.css HTTP/1.1"), file("css/site.css"));
    assert_eq!(route("GET /../secret HTTP/1.1"), Route::NotFound);
    assert_eq!(route("GET /a/..b HTTP/1.1"), Route::NotFound);
    assert_eq!(route("GET"), file("index.html"));
    assert_eq!(route(""), file("index.html"));
    assert_eq!(route("GET /?q HTTP/1.1"), file("index.html"));
    assert_eq!(route("  GET\t /img/logo.png  HTTP/1.1"), file("img/logo.png"));
    assert_eq!(route("GET /config.jsonx HTTP/1.1"), file("config.jsonx"));
}

#[test]
fn content_types() {
    assert_eq!(content_type("webui/index.html"), "text/html; charset=utf-8");
    assert_eq!(content_type("webui/app.js"), "text/javascript; charset=utf-8");
    assert_eq!(content_type("webui/style.css"), "text/css; charset=utf-8");
    assert_eq!(content_type("data.json"), "application/json");
    assert_eq!(content_type("a/b/icon.svg"), "image/svg+xml");
    assert_eq!(content_type("logo.png"), "image/png");
    assert_eq!(content_type("favicon.ico"), "image/x-icon");
    assert_eq!(content_type("archive.tar.gz"), "application/octet-stream");
    assert_eq!(content_type("README"), "application/octet-stream");
    assert_eq!(content_type("webui/.html"), "application/octet-stream");
    assert_eq!(content_type(".a.html"), "text/html; charset=utf-8");
    assert_eq!(content_type("page.HTML"), "application/octet-stream");
    assert_eq!(content_type("dir/page.html/"), "text/html; charset=utf-8");
    assert_eq!(content_type("dir/page.css/."), "text/css; charset=utf-8");
    assert_eq!(content_type("x.png/.."), "application/octet-stream");
    assert_eq!(content_type("/"), "application/octet-stream");
    assert_eq!(content_type(""), "application/octet-stream");
    assert_eq!(content_type("webui.d/readme"), "application/octet-stream");
}

#[test]
fn content_type_matches_path_extension() {
    for p in ["a/b.html", "b.js", "c.", ".hidden", "x/y.z/w", "m.png/", "n.svg/.", "p.ico//", "q/..", "r/.", "s"] {
        let expected = match Path::new(p).extension().and_then(|e| e.to_str()) {
            Some("html") => "text/html; charset=utf-8",
            Some("js") => "text/javascript; charset=utf-8",
            Some("css") => "text/css; charset=utf-8",
            Some("json") => "application/json",
            Some("svg") => "image/svg+xml",
            Some("png") => "image/png",
            Some("ico") => "image/x-icon",
            _ => "application/octet-stream",
        };
        assert_eq!(content_type(p), expected, "{}", p);
    }
}

#[test]
fn response_head() {
    assert_eq!(
        response_header("200 OK", "text/html; charset=utf-8", 1234),
        "HTTP/1.1 200 OK\r\nContent-Type: text/html; charset=utf-8\r\nContent-Length: 1234\r\nConnection: close\r\n\r\n"
    );
    assert_eq!(
        response_header("404 Not Found", "text/plain", 9),
        "HTTP/1.1 404 Not Found\r\nContent-Type: text/plain\r\nContent-Length: 9\r\nConnection: close\r\n\r\n"
    );
}

#[test]
fn addresses_and_hosts() {
    assert_eq!(bind_address("0.0.0.0", 8765), "0.0.0.0:8765");
    assert_eq!(bind_address("127.0.0.1", 80), "127.0.0.1:80");
    assert_eq!(bind_address("::", 0), format!("{}:{}", "::", 0));
    assert!(is_wildcard_bind("0.0.0.0"));
    assert!(is_wildcard_bind("::"));
    assert!(!is_wildcard_bind("127.0.0.1"));
    assert_eq!(display_host("0.0.0.0", Some("192.168.1.20".to_string())), "192.168.1.20");
    assert_eq!(display_host("::", None), "localhost");
    assert_eq!(display_host("10.0.0.5", Some("192.168.1.20".to_string())), "10.0.0.5");
}

#[test]
fn decimal_and_equality() {
    assert_eq!(decimal_string(0), "0");
    assert_eq!(decimal_string(7), "7");
    assert_eq!(decimal_string(10), "10");
    assert_eq!(decimal_string(1234567890), "1234567890");
    assert_eq!(decimal_string(u64::MAX), u64::MAX.to_string());
    assert!(str_eq("héllo", "héllo"));
    assert!(!str_eq("abc", "abd"));
    assert!(!str_eq("abc", "ab"));
}
