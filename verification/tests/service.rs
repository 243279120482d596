use std::collections::HashMap;

use kono::generator::KonoIdGenerator;
use kono::response::AppResponse;
use kono::service::generated_response;
use kono::service::handle_request;
use kono::service::route;
use kono::service::Reply;
use kono::service::Request;
use kono::service::Route;
use kono::storage::Storage;

struct MapStorage {
    values: HashMap<Vec<u8>, u64>,
}

impl Storage for MapStorage {
    fn get_u64(&self, key: &[u8]) -> Option<u64> {
        self.values.get(key).copied()
    }

    fn save_u64(&mut self, key: &[u8], val: u64) {
        self.values.insert(key.to_vec(), val);
    }
}

fn generator(increment: u64, bits: u8) -> KonoIdGenerator<MapStorage> {
    KonoIdGenerator::new(MapStorage { values: HashMap::new() }, increment, 0, bits, vec![0])
}

#[test]
fn response_codes() {
    let r = AppResponse::success(vec![1u64]);
    assert_eq!((r.data, r.code, r.http_code), (Some(vec![1u64]), 0, 200));
    let r = AppResponse::<Vec<u64>>::not_found();
    assert_eq!((r.data, r.code, r.http_code), (None, 1, 404));
    let r = AppResponse::<Vec<u64>>::internal_server_error();
    assert_eq!((r.data, r.code, r.http_code), (None, 2, 500));
    let r = AppResponse::<Vec<u64>>::invalid_parameters();
    assert_eq!((r.data, r.code, r.http_code), (None, 3, 400));
}

#[test]
fn termination_stops() {
    let mut g = generator(1, 0);
    assert!(matches!(handle_request(&mut g, Request::Termination), Reply::Stop));
}

#[test]
fn new_key_hands_out_ids() {
    let mut g = generator(2, 10);
    match handle_request(&mut g, Request::NewKey { sharding_id: 0, num: 2 }) {
        Reply::Ids(ids) => assert_eq!(ids, vec![2048, 4096]),
        _ => panic!("expected ids"),
    }
}

#[test]
fn exhausted_generator_refuses() {
    let mut g = generator(1, 63);
    assert!(matches!(handle_request(&mut g, Request::NewKey { sharding_id: 0, num: 2 }), Reply::Exhausted));
    match handle_request(&mut g, Request::NewKey { sharding_id: 0, num: 1 }) {
        Reply::Ids(ids) => assert_eq!(ids, vec![1u64 << 63]),
        _ => panic!("expected ids"),
    }
}

#[test]
fn routes() {
    assert!(matches!(
        route("/id", true, Some("sharding_id=3&num=2")),
        Route::Generate { sharding_id: 3, num: 2 }
    ));
    assert!(matches!(route("/id", true, Some("num=2")), Route::InvalidParameters));
    assert!(matches!(route("/id", true, None), Route::InvalidParameters));
    assert!(matches!(route("/id", false, Some("sharding_id=3")), Route::NotFound));
    assert!(matches!(route("/ids", true, Some("sharding_id=3")), Route::NotFound));
    assert!(matches!(route("/", true, Some("sharding_id=3")), Route::NotFound));
}

#[test]
fn generated_response_cases() {
    let r = generated_response(Some(vec![5, 6]));
    assert_eq!((r.data, r.code, r.http_code), (Some(vec![5, 6]), 0, 200));
    let r = generated_response(None);
    assert_eq!((r.data, r.code, r.http_code), (None, 2, 500));
}
