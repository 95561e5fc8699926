use arcjet::server::{route, Route};

const HELLO: &str = "9b71d224bd62f3785d96d46ad3ea3d73319bfbc2890caadae2dff72519673ca72323c3d99ba5c11d7c7acc6e14b8c5da0c4663475c2e5c3adef46f73bcdec043";

#[test]
fn get_under_store_is_a_download() {
    assert_eq!(
        route("GET", &format!("/store/{}", HELLO)),
        Route::Download { hash: String::from(HELLO) }
    );
    assert_eq!(route("GET", "/store/abc"), Route::Download { hash: String::from("abc") });
    assert_eq!(route("GET", "/store/"), Route::Download { hash: String::new() });
    assert_eq!(route("GET", "/store/a/b"), Route::Download { hash: String::from("a/b") });
}

#[test]
fn post_to_store_is_an_upload() {
    assert_eq!(route("POST", "/store"), Route::Upload);
}

#[test]
fn post_to_index_submits_a_record() {
    assert_eq!(route("POST", "/index"), Route::Index);
}

#[test]
fn other_requests_are_unknown() {
    assert_eq!(route("GET", "/store"), Route::Unknown);
    assert_eq!(route("GET", "/"), Route::Unknown);
    assert_eq!(route("GET", ""), Route::Unknown);
    assert_eq!(route("GET", "/stores/abc"), Route::Unknown);
    assert_eq!(route("POST", "/store/"), Route::Unknown);
    assert_eq!(route("POST", "/store/abc"), Route::Unknown);
    assert_eq!(route("POST", "/index/"), Route::Unknown);
    assert_eq!(route("GET", "/index"), Route::Unknown);
    assert_eq!(route("PUT", "/store"), Route::Unknown);
    assert_eq!(route("get", "/store/abc"), Route::Unknown);
    assert_eq!(route("", ""), Route::Unknown);
    assert_eq!(route("DELETE", "/store/abc"), Route::Unknown);
}
