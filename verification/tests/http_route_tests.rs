use abgen_serve::http::{
    asset_content_type, header_line, parse_request_line, reason, response_bytes, response_head,
    HeaderLine,
};
use abgen_serve::index::HashIndex;
use abgen_serve::route::{asset_target, is_head, manifest_fallback, route, settled_response, Route};

#[test]
fn request_line_method_and_path() {
    let (m, p) = parse_request_line("GET /v41/abc_webgl HTTP/1.1\r\n").unwrap();
    assert_eq!(m, "GET");
    assert_eq!(p, "/v41/abc_webgl");
}

#[test]
fn request_line_without_path_defaults_to_root() {
    let (m, p) = parse_request_line("  HEAD\r\n").unwrap();
    assert_eq!(m, "HEAD");
    assert_eq!(p, "/");
}

#[test]
fn request_line_blank_is_none() {
    assert!(parse_request_line("\r\n").is_none());
    assert!(parse_request_line("").is_none());
}

#[test]
fn request_line_unicode_whitespace_separates() {
    let (m, p) = parse_request_line("GET\u{3000}/x\u{a0}HTTP/1.1").unwrap();
    assert_eq!(m, "GET");
    assert_eq!(p, "/x");
}

#[test]
fn header_content_length_any_case() {
    assert_eq!(header_line("Content-Length: 12\r\n"), HeaderLine::ContentLength(12));
    assert_eq!(header_line("content-LENGTH:+7"), HeaderLine::ContentLength(7));
}

#[test]
fn header_content_length_not_a_number_is_zero() {
    assert_eq!(header_line("Content-Length: abc\r\n"), HeaderLine::ContentLength(0));
    assert_eq!(header_line("Content-Length: -3\r\n"), HeaderLine::ContentLength(0));
    assert_eq!(header_line("Content-Length: 99999999999999999999999\r\n"), HeaderLine::ContentLength(0));
}

#[test]
fn header_blank_line_ends() {
    assert_eq!(header_line("\r\n"), HeaderLine::End);
    assert_eq!(header_line("   \r\n"), HeaderLine::End);
}

#[test]
fn header_other_lines() {
    assert_eq!(header_line("Host: localhost\r\n"), HeaderLine::Other);
    assert_eq!(header_line("no colon here\r\n"), HeaderLine::Other);
}

#[test]
fn reasons_of_codes() {
    assert_eq!(reason(200), "OK");
    assert_eq!(reason(204), "No Content");
    assert_eq!(reason(404), "Not Found");
    assert_eq!(reason(500), "Internal Server Error");
    assert_eq!(reason(302), "OK");
}

#[test]
fn response_head_exact() {
    assert_eq!(
        response_head(404, "text/plain", 9),
        "HTTP/1.1 404 Not Found\r\nContent-Type: text/plain\r\nContent-Length: 9\r\nAccess-Control-Allow-Origin: *\r\nConnection: close\r\n\r\n"
    );
}

#[test]
fn response_bytes_head_request_omits_body() {
    let full = response_bytes(200, "application/json", b"{}", false);
    let head = response_bytes(200, "application/json", b"{}", true);
    assert!(full.ends_with(b"\r\n\r\n{}"));
    assert!(head.ends_with(b"Content-Length: 2\r\nAccess-Control-Allow-Origin: *\r\nConnection: close\r\n\r\n"));
    assert_eq!(full.len(), head.len() + 2);
}

#[test]
fn content_type_by_code() {
    assert_eq!(asset_content_type(200), "application/octet-stream");
    assert_eq!(asset_content_type(500), "text/plain");
}

#[test]
fn route_options_is_preflight() {
    assert!(matches!(route("OPTIONS", "/anything"), Route::Preflight));
}

#[test]
fn route_versions_post() {
    assert!(matches!(route("POST", "/entities/versions?x=1"), Route::Versions));
    assert!(matches!(route("POST", "/v1/entities/versions/"), Route::Versions));
    assert!(matches!(route("POST", "/v41/a/b"), Route::NotFound));
}

#[test]
fn route_other_methods_not_found() {
    assert!(matches!(route("PUT", "/v41/a/b"), Route::NotFound));
    assert!(matches!(route("get", "/v41/a/b"), Route::NotFound));
}

#[test]
fn route_manifest() {
    match route("GET", "/manifest/bafyscene_windows.json?t=1") {
        Route::Manifest { stem, entity } => {
            assert_eq!(stem, "bafyscene_windows");
            assert_eq!(entity, "bafyscene");
        }
        _ => panic!("expected a manifest route"),
    }
    match route("HEAD", "manifest/plain.json") {
        Route::Manifest { stem, entity } => {
            assert_eq!(stem, "plain");
            assert_eq!(entity, "plain");
        }
        _ => panic!("expected a manifest route"),
    }
}

#[test]
fn route_manifest_without_json_is_flat() {
    match route("GET", "/manifest/abc_mac") {
        Route::FlatAsset { hash, file } => {
            assert_eq!(hash, "abc");
            assert_eq!(file, "abc_mac");
        }
        _ => panic!("expected a flat asset route"),
    }
}

#[test]
fn route_asset_three_parts() {
    match route("GET", "//v41/bafyentity/bafyhash_webgl//") {
        Route::Asset { entity, file } => {
            assert_eq!(entity, "bafyentity");
            assert_eq!(file, "bafyhash_webgl");
        }
        _ => panic!("expected an asset route"),
    }
}

#[test]
fn route_too_many_parts() {
    assert!(matches!(route("GET", "/a/b/c/d"), Route::NotFound));
    assert!(matches!(route("GET", "/"), Route::NotFound));
}

#[test]
fn head_method() {
    assert!(is_head("HEAD"));
    assert!(!is_head("GET"));
}

#[test]
fn flat_asset_uses_index() {
    let mut idx = HashIndex::new();
    idx.insert_if_absent("bafyhash", "bafyowner");
    let r = route("GET", "/v41/BafyHash_webgl");
    assert!(settled_response(&r, &idx).is_none());
    let (e, f) = asset_target(&r, &idx).unwrap();
    assert_eq!(e, "bafyowner");
    assert_eq!(f, "BafyHash_webgl");
    let unknown = route("GET", "/v41/other_webgl");
    let resp = settled_response(&unknown, &idx).unwrap();
    assert_eq!(resp.code, 404);
    assert_eq!(resp.body, b"unknown asset".to_vec());
    assert!(asset_target(&unknown, &idx).is_none());
}

#[test]
fn settled_not_found_and_preflight() {
    let idx = HashIndex::new();
    let nf = settled_response(&Route::NotFound, &idx).unwrap();
    assert_eq!((nf.code, nf.content_type.as_str(), nf.body.as_slice()), (404, "text/plain", &b"not found"[..]));
    let pf = settled_response(&Route::Preflight, &idx).unwrap();
    assert_eq!((pf.code, pf.body.len()), (204, 0));
}

#[test]
fn manifest_fallback_answers() {
    let found = manifest_fallback(Some(b"{\"version\":\"v41\"}".to_vec()));
    assert_eq!(found.code, 200);
    assert_eq!(found.content_type, "application/json");
    let missing = manifest_fallback(None);
    assert_eq!(missing.code, 404);
    assert_eq!(missing.body, b"{\"error\":\"unknown entity\"}".to_vec());
}

use abgen_serve::versions::{present_strings, requested_pointers};

#[test]
fn pointers_keep_strings_in_order() {
    let body = br#"{"pointers":["0,0",1,"bafy",null,"-5,3"],"other":true}"#;
    assert_eq!(requested_pointers(body), vec!["0,0".to_string(), "bafy".to_string(), "-5,3".to_string()]);
}

#[test]
fn pointers_absent_or_invalid() {
    assert!(requested_pointers(b"not json").is_empty());
    assert!(requested_pointers(br#"{"pointers":"x"}"#).is_empty());
    assert!(requested_pointers(br#"{"other":[]}"#).is_empty());
    assert!(requested_pointers(br#"["a"]"#).is_empty());
    assert!(requested_pointers(b"").is_empty());
}

#[test]
fn present_strings_drops_missing() {
    let out = present_strings(vec![None, Some("a".to_string()), None, Some("b".to_string())]);
    assert_eq!(out, vec!["a".to_string(), "b".to_string()]);
}
