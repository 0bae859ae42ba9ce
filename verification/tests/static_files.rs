use std::path::{Path, PathBuf};

use http::{HeaderMap, HeaderName, HeaderValue};
use oxihttp::error::ErrorKind;
use oxihttp::http_date::{
    days_since_epoch, format_http_date, parse_http_date, unix_days_to_civil,
};
use oxihttp::http_types::{Method, Reply};
use oxihttp::static_files::{
    compute_etag, etag_matches, is_modified_since, is_path_safe, is_within, parse_single_range,
    Choice, Located, Modified, PathPart, RangeError, ServeDir, ServeFile, ServedFile,
};

fn headers(list: &[(&'static str, &str)]) -> HeaderMap {
    let mut map = HeaderMap::new();
    for (name, value) in list {
        map.insert(
            HeaderName::from_static(name),
            HeaderValue::from_str(value).unwrap(),
        );
    }
    map
}

fn file(extension: &str, data: &[u8], modified: Modified) -> ServedFile {
    ServedFile {
        extension: extension.to_string(),
        data: data.to_vec(),
        modified,
    }
}

fn header<'a>(reply: &'a Reply, name: &str) -> Option<&'a str> {
    reply.headers.get(name).map(|v| v.to_str().unwrap())
}

#[test]
fn test_etag_stable() {
    let e1 = compute_etag(b"hello");
    let e2 = compute_etag(b"hello");
    assert_eq!(e1, e2);
    assert!(e1.starts_with('"') && e1.ends_with('"'));
    // 16 bytes × 2 hex chars + 2 quote chars = 34
    assert_eq!(e1.len(), 34);
}

#[test]
fn test_etag_different() {
    assert_ne!(compute_etag(b"hello"), compute_etag(b"world"));
}

#[test]
fn etag_is_the_start_of_the_digest() {
    assert_eq!(compute_etag(b"hello"), "\"2cf24dba5fb0a30e26e83b2ac5b9e29e\"");
    assert_eq!(compute_etag(b""), "\"e3b0c44298fc1c149afbf4c8996fb924\"");
}

#[test]
fn test_etag_matches_wildcard() {
    assert!(etag_matches("*", "\"abc\""));
}

#[test]
fn test_etag_matches_exact() {
    assert!(etag_matches("\"abc\"", "\"abc\""));
    assert!(!etag_matches("\"abc\"", "\"xyz\""));
}

#[test]
fn etag_matches_one_of_a_list() {
    assert!(etag_matches("\"a\" ,\t\"b\", \"c\"", "\"b\""));
    assert!(etag_matches("  *  ", "\"b\""));
    assert!(!etag_matches("\"a\", *", "\"b\""));
    assert!(!etag_matches("", "\"b\""));
}

#[test]
fn test_parse_range_simple() {
    assert_eq!(parse_single_range("bytes=0-9", 100).unwrap(), (0, 9));
}

#[test]
fn test_parse_range_open_end() {
    assert_eq!(parse_single_range("bytes=5-", 20).unwrap(), (5, 19));
}

#[test]
fn test_parse_range_suffix() {
    // `bytes=-5` on a 20-byte file: last 5 bytes → [15, 19]
    assert_eq!(parse_single_range("bytes=-5", 20).unwrap(), (15, 19));
}

#[test]
fn test_parse_range_multirange_rejected() {
    assert!(matches!(
        parse_single_range("bytes=0-9,20-29", 100),
        Err(RangeError::MultiRange)
    ));
}

#[test]
fn ranges_outside_the_file_are_invalid() {
    assert_eq!(parse_single_range("bytes=0-0", 0), Err(RangeError::Invalid));
    assert_eq!(parse_single_range("bytes=5-20", 20), Err(RangeError::Invalid));
    assert_eq!(parse_single_range("bytes=20-", 20), Err(RangeError::Invalid));
    assert_eq!(parse_single_range("bytes=7-6", 20), Err(RangeError::Invalid));
    assert_eq!(parse_single_range("bytes=-0", 20), Err(RangeError::Invalid));
    assert_eq!(parse_single_range("bytes=-", 20), Err(RangeError::Invalid));
    assert_eq!(parse_single_range("bytes=abc", 20), Err(RangeError::Invalid));
    assert_eq!(parse_single_range("lines=0-1", 20), Err(RangeError::Invalid));
    assert_eq!(parse_single_range("", 20), Err(RangeError::Invalid));
    assert_eq!(
        parse_single_range("bytes=99999999999999999999-", 20),
        Err(RangeError::Invalid)
    );
}

#[test]
fn a_suffix_longer_than_the_file_is_the_file() {
    assert_eq!(parse_single_range("bytes=-50", 20), Ok((0, 19)));
    assert_eq!(parse_single_range("  bytes=+2-3 ", 20), Ok((2, 3)));
}

#[test]
fn test_path_safe_normal() {
    let root = Path::new("/srv/www");
    assert!(is_path_safe(root, Path::new("/srv/www/index.html")));
}

#[test]
fn test_path_traversal_rejected() {
    let root = Path::new("/srv/www");
    assert!(!is_path_safe(root, Path::new("/srv/www/../etc/passwd")));
}

#[test]
fn test_path_safe_root_equal() {
    let root = Path::new("/srv/www");
    // Exact root — no extra segments, so len < root len check triggers.
    // The root itself is NOT a file, but the safety check allows it.
    // (Serving root returns 404 because it's a dir, not a file.)
    assert!(is_path_safe(root, Path::new("/srv/www")));
}

#[test]
fn paths_may_climb_as_far_as_they_descended() {
    let root = Path::new("/srv/www");
    assert!(is_path_safe(root, Path::new("/srv/www/a/b/../../c")));
    assert!(is_path_safe(root, Path::new("/srv/www/./a")));
    assert!(!is_path_safe(root, Path::new("/srv/www/a/../../c")));
    assert!(!is_path_safe(root, Path::new("/srv")));
    assert!(!is_path_safe(root, Path::new("srv/www/a")));
}

#[test]
fn paths_that_climb_out_come_back_by_their_names() {
    let root = Path::new("/srv/www");
    assert!(is_path_safe(root, Path::new("/srv/www/../www/x")));
    assert!(is_path_safe(root, Path::new("/srv/www/../../srv/www")));
    assert!(!is_path_safe(root, Path::new("/srv/www/../ww2/x")));
    assert!(!is_path_safe(root, Path::new("/srv/www/../../www/srv")));
}

#[test]
fn both_paths_are_normalised() {
    assert!(is_path_safe(
        Path::new("/srv/x/../www"),
        Path::new("/srv/www/index.html")
    ));
}

#[test]
fn components_decide_about_paths() {
    let name = |s: &str| PathPart::Named(s.as_bytes().to_vec());
    let root = vec![name("a"), name("b")];
    assert!(is_within(&root, &vec![name("a"), PathPart::Current, name("b"), name("c")]));
    assert!(!is_within(&root, &vec![name("a"), name("b"), PathPart::Parent]));
    assert!(!is_within(&root, &vec![name("a"), name("x"), name("c")]));
    assert!(is_within(&vec![], &vec![PathPart::Parent]));
    let share = |s: &str| PathPart::Share(s.as_bytes().to_vec(), b"d".to_vec());
    let anchors = || {
        vec![
            PathPart::Root,
            name("C"),
            PathPart::Drive(b'C'),
            PathPart::Drive(b'D'),
            PathPart::RawDrive(b'C'),
            PathPart::Raw(b"C".to_vec()),
            PathPart::Device(b"C".to_vec()),
            share("C"),
            share("D"),
            PathPart::RawShare(b"C".to_vec(), b"d".to_vec()),
        ]
    };
    for (i, a) in anchors().into_iter().enumerate() {
        for (j, b) in anchors().into_iter().enumerate() {
            assert_eq!(is_within(&vec![a.clone()], &vec![b, name("x")]), i == j);
        }
    }
}

#[test]
fn modification_is_compared_to_the_second() {
    let date = format_http_date(784111777);
    assert!(!is_modified_since(784111777, &date));
    assert!(is_modified_since(784111778, &date));
    assert!(!is_modified_since(784111776, &date));
    assert!(is_modified_since(0, "not a date"));
}

#[test]
fn a_file_is_served_whole() {
    let dir = ServeDir::new(PathBuf::from("/srv"));
    let reply = dir
        .serve(
            &Method::Get,
            file("txt", b"Hello, world!", Modified::At(784111777)),
            &headers(&[]),
        )
        .unwrap();
    assert_eq!(reply.status, 200);
    assert_eq!(&reply.body[..], b"Hello, world!");
    assert_eq!(header(&reply, "content-type"), Some("text/plain"));
    assert_eq!(header(&reply, "content-length"), Some("13"));
    assert_eq!(
        header(&reply, "etag"),
        Some(compute_etag(b"Hello, world!").as_str())
    );
    assert_eq!(
        header(&reply, "last-modified"),
        Some("Sun, 06 Nov 1994 08:49:37 GMT")
    );
    assert_eq!(reply.headers.len(), 4);
}

#[test]
fn a_tag_revalidates() {
    let dir = ServeDir::new(PathBuf::from("/srv"));
    let first = dir
        .serve(
            &Method::Get,
            file("txt", b"cacheable content", Modified::Unknown),
            &headers(&[]),
        )
        .unwrap();
    let etag = header(&first, "etag").unwrap().to_owned();
    let again = dir
        .serve(
            &Method::Get,
            file("txt", b"cacheable content", Modified::Unknown),
            &headers(&[("if-none-match", &etag), ("range", "bytes=0-1")]),
        )
        .unwrap();
    assert_eq!(again.status, 304);
    assert!(again.body.is_empty());
    assert_eq!(again.headers.len(), 1);
    assert_eq!(header(&again, "etag"), Some(etag.as_str()));
    let changed = dir
        .serve(
            &Method::Get,
            file("txt", b"other content", Modified::Unknown),
            &headers(&[("if-none-match", &etag)]),
        )
        .unwrap();
    assert_eq!(changed.status, 200);
}

#[test]
fn a_date_revalidates() {
    let one = ServeFile::new(PathBuf::from("/srv/a.bin"));
    let serve = |modified, date: &str| {
        one.serve(
            &Method::Get,
            file("bin", b"data", modified),
            &headers(&[("if-modified-since", date)]),
        )
        .unwrap()
        .status
    };
    let date = format_http_date(1_000_000);
    assert_eq!(serve(Modified::At(1_000_000), &date), 304);
    assert_eq!(serve(Modified::At(1_000_001), &date), 200);
    assert_eq!(serve(Modified::BeforeEpoch, &date), 304);
    assert_eq!(serve(Modified::Unknown, &date), 200);
    assert_eq!(serve(Modified::At(1_000_000), "yesterday"), 200);
}

#[test]
fn a_range_is_served() {
    let dir = ServeDir::new(PathBuf::from("/srv"));
    let reply = dir
        .serve(
            &Method::Get,
            file("txt", b"Hello, world!", Modified::At(5)),
            &headers(&[("range", "bytes=0-3")]),
        )
        .unwrap();
    assert_eq!(reply.status, 206);
    assert_eq!(&reply.body[..], b"Hell");
    assert_eq!(header(&reply, "content-range"), Some("bytes 0-3/13"));
    assert_eq!(header(&reply, "content-length"), Some("4"));
    assert_eq!(header(&reply, "content-type"), Some("text/plain"));
    assert_eq!(header(&reply, "last-modified"), None);
    let open = dir
        .serve(
            &Method::Get,
            file("txt", b"0123456789", Modified::Unknown),
            &headers(&[("range", "bytes=5-")]),
        )
        .unwrap();
    assert_eq!(open.status, 206);
    assert_eq!(&open.body[..], b"56789");
}

#[test]
fn a_range_that_cannot_be_served_is_refused() {
    let dir = ServeDir::new(PathBuf::from("/srv"));
    for range in ["bytes=20-30", "bytes=0-1,3-4", "nonsense"] {
        let reply = dir
            .serve(
                &Method::Get,
                file("txt", b"Hello, world!", Modified::Unknown),
                &headers(&[("range", range)]),
            )
            .unwrap();
        assert_eq!(reply.status, 416);
        assert_eq!(header(&reply, "content-range"), Some("bytes */13"));
        assert!(reply.body.is_empty());
        assert_eq!(reply.headers.len(), 1);
    }
}

#[test]
fn head_mirrors_get() {
    let dir = ServeDir::new(PathBuf::from("/srv"));
    let map = headers(&[]);
    let get = dir
        .serve(&Method::Get, file("txt", b"head body content", Modified::At(9)), &map)
        .unwrap();
    let head = dir
        .serve(&Method::Head, file("txt", b"head body content", Modified::At(9)), &map)
        .unwrap();
    assert_eq!(head.status, 200);
    assert!(head.body.is_empty());
    assert_eq!(header(&head, "content-length"), Some("17"));
    assert_eq!(get.headers, head.headers);
    let part = dir
        .serve(
            &Method::Head,
            file("txt", b"head body content", Modified::At(9)),
            &headers(&[("range", "bytes=1-2")]),
        )
        .unwrap();
    assert_eq!(part.status, 206);
    assert!(part.body.is_empty());
    assert_eq!(header(&part, "content-length"), Some("2"));
}

#[test]
fn other_methods_are_not_allowed() {
    let dir = ServeDir::new(PathBuf::from("/srv"));
    let reply = dir
        .serve(&Method::Post, file("txt", b"x", Modified::Unknown), &headers(&[]))
        .unwrap();
    assert_eq!(reply.status, 405);
    assert!(matches!(
        dir.locate(&Method::Other("BREW".to_string()), "/x"),
        Located::Refused(r) if r.status == 405
    ));
    let one = ServeFile::new(PathBuf::from("/srv/x"));
    assert_eq!(one.check_method(&Method::Delete).unwrap().status, 405);
    assert!(one.check_method(&Method::Head).is_none());
    assert_eq!(
        one.serve(&Method::Put, file("", b"x", Modified::Unknown), &headers(&[]))
            .unwrap()
            .status,
        405
    );
}

#[test]
fn requests_are_located() {
    let dir = ServeDir::new(PathBuf::from("/srv"));
    assert!(matches!(
        dir.locate(&Method::Get, "//a/b.txt"),
        Located::File(p) if p == "a/b.txt"
    ));
    assert!(matches!(
        dir.locate(&Method::Get, "/"),
        Located::Refused(r) if r.status == 404
    ));
    let dir = dir.with_index("index.html");
    assert!(matches!(
        dir.locate(&Method::Head, "/"),
        Located::File(p) if p == "index.html"
    ));
}

#[test]
fn files_are_chosen() {
    let dir = ServeDir::new(PathBuf::from("/srv"));
    assert_eq!(dir.choose_file(true, false), Choice::Requested);
    assert_eq!(dir.choose_file(false, true), Choice::Missing);
    assert_eq!(dir.not_found().status, 404);
    assert!(dir.fallback().is_none());
    let dir = dir.with_fallback(PathBuf::from("404.html"));
    assert_eq!(dir.choose_file(false, true), Choice::Fallback);
    assert_eq!(dir.choose_file(false, false), Choice::Missing);
    assert_eq!(dir.choose_file(true, true), Choice::Requested);
    assert_eq!(dir.fallback().unwrap(), Path::new("404.html"));
    assert_eq!(dir.root(), Path::new("/srv"));
}

#[test]
fn paths_outside_the_root_are_forbidden() {
    let dir = ServeDir::new(PathBuf::from("/srv/www"));
    let reply = dir
        .guard(Path::new("/srv/www"), Path::new("/srv/www/../secret.txt"))
        .unwrap();
    assert_eq!(reply.status, 403);
    assert!(dir
        .guard(Path::new("/srv/www"), Path::new("/srv/www/hello.txt"))
        .is_none());
}

#[test]
fn cache_control_goes_with_every_response() {
    let dir = ServeDir::new(PathBuf::from("/srv")).with_cache_control("max-age=60");
    let replies = [
        dir.serve(&Method::Get, file("txt", b"x", Modified::Unknown), &headers(&[])),
        dir.serve(
            &Method::Get,
            file("txt", b"x", Modified::Unknown),
            &headers(&[("if-none-match", "*")]),
        ),
        dir.serve(
            &Method::Get,
            file("txt", b"x", Modified::Unknown),
            &headers(&[("range", "bytes=0-0")]),
        ),
        dir.serve(
            &Method::Get,
            file("txt", b"x", Modified::Unknown),
            &headers(&[("range", "bytes=7-")]),
        ),
        dir.serve(&Method::Patch, file("txt", b"x", Modified::Unknown), &headers(&[])),
        Ok(dir.not_found()),
    ];
    let mut statuses = Vec::new();
    for reply in replies {
        let reply = reply.unwrap();
        assert_eq!(header(&reply, "cache-control"), Some("max-age=60"));
        statuses.push(reply.status);
    }
    assert_eq!(statuses, vec![200, 304, 206, 416, 405, 404]);
}

#[test]
fn refusals_keep_their_status_without_a_cache_control() {
    let dir = ServeDir::new(PathBuf::from("/srv/www")).with_cache_control("a\nb");
    let ask = |list: &[(&'static str, &str)]| {
        dir.serve(&Method::Get, file("txt", b"x", Modified::Unknown), &headers(list))
    };
    let located = match dir.locate(&Method::Get, "/") {
        Located::Refused(r) => r,
        Located::File(_) => panic!("refusal expected"),
    };
    let replies = [
        located,
        dir.not_found(),
        dir.guard(Path::new("/srv/www"), Path::new("/srv/www/..")).unwrap(),
        dir.serve(&Method::Post, file("txt", b"x", Modified::Unknown), &headers(&[])).unwrap(),
        ask(&[("if-none-match", "*")]).unwrap(),
        ask(&[("range", "bytes=7-")]).unwrap(),
    ];
    let mut statuses = Vec::new();
    for reply in replies {
        assert_eq!(header(&reply, "cache-control"), None);
        statuses.push(reply.status);
    }
    assert_eq!(statuses, vec![404, 404, 403, 405, 304, 416]);
    let one = ServeFile::new(PathBuf::from("/srv/x")).with_cache_control("\u{0}");
    assert_eq!(one.check_method(&Method::Put).unwrap().status, 405);
}

#[test]
fn methods_are_known_by_their_names() {
    let dir = ServeDir::new(PathBuf::from("/srv"));
    let get = Method::Other("GET".to_string());
    let head = Method::Other("HEAD".to_string());
    assert!(matches!(dir.locate(&get, "/a"), Located::File(p) if p == "a"));
    let reply = dir.serve(&get, file("txt", b"xy", Modified::Unknown), &headers(&[])).unwrap();
    assert_eq!((reply.status, &reply.body[..]), (200, &b"xy"[..]));
    let reply = dir.serve(&head, file("txt", b"xy", Modified::Unknown), &headers(&[])).unwrap();
    assert_eq!((reply.status, &reply.body[..]), (200, &b""[..]));
    assert!(ServeFile::new(PathBuf::from("/srv/x")).check_method(&head).is_none());
}

#[test]
fn days_are_counted_and_found() {
    assert_eq!(days_since_epoch(1970, 1, 1), Some(0));
    assert_eq!(days_since_epoch(1994, 11, 6), Some(9075));
    assert_eq!(days_since_epoch(1969, 12, 31), None);
    // A day past the end of the month counts on.
    assert_eq!(days_since_epoch(2023, 2, 29), days_since_epoch(2023, 3, 1));
    for n in [0i64, 58, 59, 60, 789, 11016, 11017, 19782, 2_932_896, i64::MAX] {
        let (y, m, d) = unix_days_to_civil(n);
        assert_eq!(days_since_epoch(y, m, d), Some(n));
    }
    assert_eq!(unix_days_to_civil(11016), (2000, 2, 29));
    assert_eq!(unix_days_to_civil(-1), (1969, 12, 31));
    assert_eq!(days_since_epoch(i64::MIN, 1, i64::MAX), None);
    for n in [-1i64, -719_529, i64::MIN] {
        let (y, m, d) = unix_days_to_civil(n);
        assert_eq!(days_since_epoch(y, m, d), None);
    }
}

#[test]
fn headers_that_cannot_be_sent_are_errors() {
    let dir = ServeDir::new(PathBuf::from("/srv")).with_cache_control("a\nb");
    for list in [&[][..], &[("range", "bytes=0-0")][..]] {
        let err = dir
            .serve(&Method::Get, file("txt", b"x", Modified::Unknown), &headers(list))
            .unwrap_err();
        assert_eq!(err.kind(), ErrorKind::Http);
        assert_eq!(err.message(), "failed to parse header value");
    }
    let one = ServeFile::new(PathBuf::from("/srv/x")).with_mime("text/\u{7f}");
    let err = one
        .serve(&Method::Get, file("x", b"x", Modified::Unknown), &headers(&[]))
        .unwrap_err();
    assert_eq!(err.kind(), ErrorKind::Http);
    let not_modified = one
        .serve(
            &Method::Get,
            file("x", b"x", Modified::Unknown),
            &headers(&[("if-none-match", "*")]),
        )
        .unwrap();
    assert_eq!(not_modified.status, 304);
}

#[test]
fn mime_types_are_looked_up() {
    let dir = ServeDir::new(PathBuf::from("/srv"))
        .add_mime_override("txt", "text/x-first")
        .add_mime_override("txt", "text/x-second");
    let mime = |ext: &str| {
        let reply = dir
            .serve(&Method::Get, file(ext, b"x", Modified::Unknown), &headers(&[]))
            .unwrap();
        header(&reply, "content-type").unwrap().to_owned()
    };
    assert_eq!(mime("txt"), "text/x-second");
    assert_eq!(mime("html"), "text/html");
    assert_eq!(mime("PNG"), "image/png");
    assert_eq!(mime(""), "application/octet-stream");
    assert_eq!(mime("no-such-extension"), "application/octet-stream");
}

#[test]
fn one_file_is_served_with_its_mime_type() {
    let one = ServeFile::new(PathBuf::from("/srv/a.txt"))
        .with_mime("text/markdown")
        .with_cache_control("no-store");
    assert_eq!(one.path(), Path::new("/srv/a.txt"));
    let reply = one
        .serve(&Method::Get, file("txt", b"# Hi", Modified::BeforeEpoch), &headers(&[]))
        .unwrap();
    assert_eq!(reply.status, 200);
    assert_eq!(header(&reply, "content-type"), Some("text/markdown"));
    assert_eq!(header(&reply, "cache-control"), Some("no-store"));
    assert_eq!(header(&reply, "last-modified"), None);
}

#[test]
fn test_parse_imf_fixdate() {
    // 1994-11-06T08:49:37Z = 784111777
    assert_eq!(
        parse_http_date("Sun, 06 Nov 1994 08:49:37 GMT"),
        Some(784111777)
    );
}

#[test]
fn test_parse_rfc850_date() {
    // Same instant via RFC 850 format
    assert_eq!(
        parse_http_date("Sunday, 06-Nov-94 08:49:37 GMT"),
        Some(784111777)
    );
}

#[test]
fn test_parse_asctime() {
    // Same instant via ANSI C asctime format
    assert_eq!(parse_http_date("Sun Nov  6 08:49:37 1994"), Some(784111777));
}

#[test]
fn test_format_http_date_roundtrip() {
    let ts = 784111777u64;
    let formatted = format_http_date(ts);
    assert_eq!(formatted, "Sun, 06 Nov 1994 08:49:37 GMT");
    let parsed = parse_http_date(&formatted).expect("parse formatted");
    assert_eq!(parsed, ts);
}

#[test]
fn test_format_epoch() {
    // Unix epoch: 1970-01-01 00:00:00 UTC = Thursday
    assert_eq!(format_http_date(0), "Thu, 01 Jan 1970 00:00:00 GMT");
}

#[test]
fn test_parse_invalid() {
    assert_eq!(parse_http_date("not a date"), None);
    assert_eq!(parse_http_date(""), None);
    assert_eq!(parse_http_date("Sun, 06 Nov 1994 08:49:37 EST"), None);
}

#[test]
fn test_parse_year_before_epoch_returns_none() {
    // 1969 is before Unix epoch
    assert_eq!(parse_http_date("Wed, 01 Jan 1969 00:00:00 GMT"), None);
}

#[test]
fn the_three_forms_agree() {
    let time = Some(1_709_210_096);
    assert_eq!(parse_http_date("Thu, 29 Feb 2024 12:34:56 GMT"), time);
    assert_eq!(parse_http_date("Thursday, 29-Feb-24 12:34:56 GMT"), time);
    assert_eq!(parse_http_date("Thu Feb 29 12:34:56 2024"), time);
}

#[test]
fn dates_around_leap_days() {
    assert_eq!(format_http_date(951782400), "Tue, 29 Feb 2000 00:00:00 GMT");
    assert_eq!(format_http_date(4107542399), "Sun, 28 Feb 2100 23:59:59 GMT");
    assert_eq!(format_http_date(4107542400), "Mon, 01 Mar 2100 00:00:00 GMT");
    assert_eq!(parse_http_date("x, 29 Feb 2000 00:00:00 GMT"), Some(951782400));
    // A day past the end of its month counts on.
    assert_eq!(
        parse_http_date("x, 31 Feb 2001 00:00:00 GMT"),
        parse_http_date("x, 03 Mar 2001 00:00:00 GMT")
    );
}

#[test]
fn short_years_count_from_two_centuries() {
    assert_eq!(
        parse_http_date("x, 01-Jan-69 00:00:00 GMT"),
        parse_http_date("x, 01 Jan 2069 00:00:00 GMT")
    );
    assert_eq!(parse_http_date("x, 01-Jan-70 00:00:00 GMT"), Some(0));
    assert_eq!(parse_http_date("x, 01-Jan-4294967295 00:00:00 GMT"), None);
}

#[test]
fn dates_are_read_strictly_where_it_matters() {
    assert_eq!(parse_http_date("  Sun, 06 Nov 1994 08:49:37 GMT\t"), Some(784111777));
    assert_eq!(parse_http_date("Sun, 32 Nov 1994 08:49:37 GMT"), None);
    assert_eq!(parse_http_date("Sun, 00 Nov 1994 08:49:37 GMT"), None);
    assert_eq!(parse_http_date("Sun, 06 nov 1994 08:49:37 GMT"), None);
    assert_eq!(parse_http_date("Sun, 06 Nov 1994 08:49 GMT"), None);
    assert_eq!(parse_http_date("Sun, -6 Nov 1994 08:49:37 GMT"), None);
    assert_eq!(parse_http_date("Sun,06 Nov 1994 08:49:37 GMT"), None);
}

#[test]
fn dates_far_out_are_written() {
    assert_eq!(format_http_date(u64::MAX), "Wed, 31 Dec 1969 23:59:59 GMT");
    assert_eq!(format_http_date(253402300800), "Sat, 01 Jan 10000 00:00:00 GMT");
    assert_eq!(
        parse_http_date(&format_http_date(253402300800)),
        Some(253402300800)
    );
}
