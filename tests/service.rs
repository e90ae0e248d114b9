use url_shortener::base62::encode;
use url_shortener::cache_aside::{CacheProbe, CacheService, LookupNext, Resolution, Task};
use url_shortener::config::{decimal, parse_port, Config, ConfigError};
use url_shortener::error::AppError;
use url_shortener::models::{trim, CreateUrlRequest, CreateUrlResponse, Url, UrlListResponse};
use url_shortener::store::UrlStore;
use url_shortener::url_service::UrlService;

fn request(url: &str) -> CreateUrlRequest {
    CreateUrlRequest { url: url.to_string() }
}

fn create(store: &mut UrlStore, url: &str, now: i64) -> Url {
    match UrlService::create(store, &request(url), now) {
        Ok(u) => u,
        Err(_) => panic!("creation failed"),
    }
}

/// Runs a whole lookup against `store`, with `probe` as the cache's answer.
fn lookup(store: &UrlStore, code: &str, probe: CacheProbe) -> Option<Resolution> {
    CacheService::get_url_with_cache_aside(store, code, probe)
}

#[test]
fn validate_accepts_http_and_https() {
    assert!(request("http://example.com").validate().is_ok());
    assert!(request("  https://example.com/a  ").validate().is_ok());
}

#[test]
fn validate_rejects_empty() {
    assert_eq!(request("").validate(), Err("URL cannot be empty"));
    assert_eq!(request(" \t\n ").validate(), Err("URL cannot be empty"));
}

#[test]
fn validate_rejects_other_schemes() {
    assert_eq!(
        request("ftp://example.com").validate(),
        Err("URL must start with http:// or https://")
    );
    assert_eq!(
        request("example.com").validate(),
        Err("URL must start with http:// or https://")
    );
}

#[test]
fn validate_length_limit() {
    let ok = format!("https://{}", "a".repeat(2048 - 8));
    assert!(request(&ok).validate().is_ok());
    let long = format!("https://{}", "a".repeat(2048 - 7));
    assert_eq!(
        request(&long).validate(),
        Err("URL is too long (max 2048 characters)")
    );
}

#[test]
fn trim_strips_unicode_white_space() {
    assert_eq!(trim("\u{3000} x y \u{2003}"), "x y");
    assert_eq!(trim("   "), "");
    assert_eq!(trim("abc"), "abc");
}

#[test]
fn sequential_creations_get_sequential_codes() {
    let mut store = UrlStore::new();
    let a = create(&mut store, "https://example.com/a", 10);
    assert_eq!(a.id, 1);
    assert_eq!(a.short_code, "1");
    assert_eq!(a.short_code, encode(1));
    let b = create(&mut store, "https://example.com/b", 11);
    assert_eq!(b.id, 2);
    assert_eq!(b.short_code, "2");
    let found = lookup(&store, "1", CacheProbe::Miss).unwrap();
    assert_eq!(found.target, "https://example.com/a");
    assert!(!found.cache_hit);
}

#[test]
fn rejected_url_creates_nothing() {
    let mut store = UrlStore::new();
    match UrlService::create(&mut store, &request("ftp://example.com"), 5) {
        Err(AppError::BadRequest(m)) => {
            assert_eq!(m, "URL must start with http:// or https://")
        }
        _ => panic!("expected a validation error"),
    }
    assert_eq!(store.count(), 0);
    let next = create(&mut store, "https://example.com", 6);
    assert_eq!(next.id, 1);
}

#[test]
fn create_then_lookup_cold_warm_and_unavailable_cache() {
    let mut store = UrlStore::new();
    let u = create(&mut store, "https://example.com/page", 100);
    let cold = lookup(&store, &u.short_code, CacheProbe::Miss).unwrap();
    assert_eq!(cold.target, "https://example.com/page");
    assert!(!cold.cache_hit);
    let warm = lookup(
        &store,
        &u.short_code,
        CacheProbe::Hit("https://example.com/page".to_string()),
    )
    .unwrap();
    assert_eq!(warm.target, "https://example.com/page");
    assert!(warm.cache_hit);
    let down = lookup(&store, &u.short_code, CacheProbe::Unavailable).unwrap();
    assert_eq!(down.target, "https://example.com/page");
    assert!(!down.cache_hit);
}

#[test]
fn unknown_code_is_not_found_and_never_cached() {
    let mut store = UrlStore::new();
    create(&mut store, "https://example.com", 1);
    assert!(lookup(&store, "zz", CacheProbe::Miss).is_none());
    assert!(lookup(&store, "zz", CacheProbe::Unavailable).is_none());
    match CacheService::redirect_reply("zz", None) {
        Err(AppError::NotFound(m)) => assert_eq!(m, "Short URL 'zz' not found"),
        _ => panic!("expected not found"),
    }
}

#[test]
fn outage_goes_to_the_store() {
    assert!(matches!(
        CacheService::after_probe(CacheProbe::Unavailable),
        LookupNext::QueryStore
    ));
    assert!(matches!(
        CacheService::after_probe(CacheProbe::Miss),
        LookupNext::QueryStore
    ));
}

#[test]
fn follow_up_refills_only_after_a_miss() {
    let miss = Resolution { target: "https://e.com".to_string(), cache_hit: false };
    let tasks = CacheService::follow_up("7", &miss);
    assert_eq!(tasks.len(), 2);
    match &tasks[0] {
        Task::Refill { key, target, ttl_seconds } => {
            assert_eq!(key, "url:7");
            assert_eq!(target, "https://e.com");
            assert_eq!(*ttl_seconds, 3600);
        }
        _ => panic!("expected a refill"),
    }
    assert!(matches!(&tasks[1], Task::CountClick { code } if code == "7"));
    let hit = Resolution { target: "https://e.com".to_string(), cache_hit: true };
    let tasks = CacheService::follow_up("7", &hit);
    assert_eq!(tasks.len(), 1);
    assert!(matches!(&tasks[0], Task::CountClick { code } if code == "7"));
}

#[test]
fn redirect_reply_found() {
    let res = Resolution { target: "https://e.com/x".to_string(), cache_hit: true };
    match CacheService::redirect_reply("1", Some(res)) {
        Ok(d) => {
            assert_eq!(d.status, 302);
            assert_eq!(d.location, "https://e.com/x");
            assert_eq!(d.cache_control, "no-cache, no-store, must-revalidate");
        }
        Err(_) => panic!("expected a redirect"),
    }
}

#[test]
fn cache_key_has_prefix() {
    assert_eq!(CacheService::cache_key("3d7"), "url:3d7");
}

#[test]
fn clicks_on_unknown_code_change_nothing() {
    let mut store = UrlStore::new();
    let u = create(&mut store, "https://example.com", 1);
    assert!(store.increment_clicks("nope"));
    assert_eq!(store.get_by_id(u.id).unwrap().clicks, 0);
    assert!(store.increment_clicks(&u.short_code));
    assert!(store.increment_clicks(&u.short_code));
    assert_eq!(store.get_by_code(&u.short_code).unwrap().clicks, 2);
}

#[test]
fn listing_is_newest_first_with_limit_and_offset() {
    let mut store = UrlStore::new();
    for (i, t) in [30, 10, 20, 40].iter().enumerate() {
        create(&mut store, &format!("https://e.com/{}", i), *t);
    }
    let all: Vec<i64> = store.list(100, 0).iter().map(|u| u.created_at).collect();
    assert_eq!(all, vec![40, 30, 20, 10]);
    let page: Vec<i64> = store.list(2, 1).iter().map(|u| u.id).collect();
    assert_eq!(page, vec![1, 3]);
    assert!(store.list(5, 4).is_empty());
    assert_eq!(store.list(0, 0).len(), 0);
    assert_eq!(UrlListResponse::new(store.list(3, 0)).total, 3);
}

#[test]
fn delete_removes_the_record() {
    let mut store = UrlStore::new();
    let a = create(&mut store, "https://e.com/a", 1);
    let b = create(&mut store, "https://e.com/b", 2);
    assert!(store.delete(&a.short_code));
    assert!(!store.delete(&a.short_code));
    assert!(store.get_by_code(&a.short_code).is_none());
    assert_eq!(store.get_by_id(b.id).unwrap().original_url, "https://e.com/b");
    assert_eq!(store.count(), 1);
}

#[test]
fn create_response_builds_short_url() {
    let mut store = UrlStore::new();
    let u = create(&mut store, "https://e.com", 1);
    let r = CreateUrlResponse::from_record(&u, 3000);
    assert_eq!(r.id, 1);
    assert_eq!(r.short_code, "1");
    assert_eq!(r.short_url, "http://localhost:3000/1");
    assert_eq!(r.original_url, "https://e.com");
}

#[test]
fn error_statuses() {
    let cases = [
        (AppError::Database("boom".to_string()), 500, "Database error occurred"),
        (AppError::Redis("down".to_string()), 500, "Cache error occurred"),
        (AppError::NotFound("gone".to_string()), 404, "gone"),
        (AppError::BadRequest("bad".to_string()), 400, "bad"),
        (AppError::Internal("oops".to_string()), 500, "Internal server error"),
    ];
    for (e, status, msg) in cases {
        let (s, m) = e.status_and_message();
        assert_eq!(s, status);
        assert_eq!(m, msg);
    }
}

#[test]
fn config_defaults_and_errors() {
    let c = Config::from_values(Some("pg".to_string()), Some("redis".to_string()), None, None)
        .ok()
        .unwrap();
    assert_eq!(c.server_host, "0.0.0.0");
    assert_eq!(c.server_port, 3000);
    assert_eq!(c.server_addr(), "0.0.0.0:3000");
    assert_eq!(c.base_url(), "http://0.0.0.0:3000");
    match Config::from_values(None, Some("r".to_string()), None, None) {
        Err(ConfigError::Missing(n)) => assert_eq!(n, "DATABASE_URL"),
        _ => panic!("expected missing"),
    }
    match Config::from_values(Some("d".to_string()), None, None, None) {
        Err(e) => assert_eq!(e.message(), "Missing environment variable: REDIS_URL"),
        _ => panic!("expected missing"),
    }
    match Config::from_values(
        Some("d".to_string()),
        Some("r".to_string()),
        Some("h".to_string()),
        Some("70000".to_string()),
    ) {
        Err(e) => assert_eq!(e.message(), "Invalid environment variable: SERVER_PORT"),
        _ => panic!("expected invalid"),
    }
}

#[test]
fn base_url_omits_port_80() {
    let c = Config::from_values(
        Some("d".to_string()),
        Some("r".to_string()),
        Some("example.org".to_string()),
        Some("80".to_string()),
    )
    .ok()
    .unwrap();
    assert_eq!(c.base_url(), "http://example.org");
    assert_eq!(c.server_addr(), "example.org:80");
}

#[test]
fn port_parsing_follows_u16_from_str() {
    for s in ["0", "80", "+8080", "65535", "007", "65536", "", "+", "-1", " 80", "8a"] {
        assert_eq!(parse_port(s), s.parse::<u16>().ok(), "input {:?}", s);
    }
    assert_eq!(decimal(0), "0");
    assert_eq!(decimal(65535), "65535");
}

#[test]
fn same_target_twice_gets_distinct_records() {
    let mut store = UrlStore::new();
    let a = create(&mut store, "https://example.com/same", 7);
    let b = create(&mut store, "https://example.com/same", 7);
    assert_ne!(a.id, b.id);
    assert_ne!(a.short_code, b.short_code);
    assert_eq!(store.count(), 2);
    assert_eq!(store.get_by_code(&a.short_code).unwrap().id, a.id);
    assert_eq!(store.get_by_code(&b.short_code).unwrap().id, b.id);
}

#[test]
fn internal_detail_is_not_shown() {
    let (s1, m1) = AppError::Internal("db pool exhausted".to_string()).status_and_message();
    let (s2, m2) = AppError::Internal("other detail".to_string()).status_and_message();
    assert_eq!((s1, s2), (500, 500));
    assert_eq!(m1, "Internal server error");
    assert_eq!(m1, m2);
}
