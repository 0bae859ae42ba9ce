use bytes::Bytes;
use http::HeaderMap;
use oxihttp::client::{Client, RequestBuilder};
use oxihttp::multipart::{generate_boundary, MultipartBuilder, Part};

fn client() -> Client<u8> {
    Client {
        inner: 0,
        max_redirects: Some(10),
        retry_policy: None,
        default_headers: HeaderMap::new(),
        connect_timeout: None,
        read_timeout: None,
        decompression: true,
    }
}

/// A POST request to a dummy URL; it is never sent.
fn post_builder() -> RequestBuilder<u8> {
    client()
        .post("http://127.0.0.1:0/test")
        .expect("request builder")
}

#[test]
fn multipart_sets_content_type_automatically() {
    let mp = MultipartBuilder::new(77, 1).add_text("field", "value");
    // Capture boundary before the builder is consumed by .multipart().
    let expected_boundary = mp.boundary().to_owned();

    let rb = post_builder().multipart(mp);

    let ct = rb
        .headers
        .get(http::header::CONTENT_TYPE)
        .and_then(|v| v.to_str().ok())
        .expect("Content-Type header must be set after .multipart()");

    assert!(
        ct.starts_with("multipart/form-data; boundary="),
        "Content-Type must start with multipart/form-data; boundary= but got: {ct}"
    );
    assert!(
        ct.contains(&expected_boundary),
        "Content-Type must contain the boundary '{expected_boundary}' but got: {ct}"
    );
}

#[test]
fn multipart_does_not_override_explicit_content_type() {
    let mp = MultipartBuilder::new(77, 2).add_text("x", "y");

    let rb = post_builder()
        .header("content-type", "application/octet-stream")
        .expect("header set")
        .multipart(mp);

    let ct = rb
        .headers
        .get(http::header::CONTENT_TYPE)
        .and_then(|v| v.to_str().ok())
        .expect("Content-Type header must be present");

    assert_eq!(
        ct, "application/octet-stream",
        "explicit Content-Type must not be overridden by .multipart()"
    );
}

#[test]
fn test_empty_builder() {
    let builder = MultipartBuilder::new(1, 1);
    let ct = builder.content_type();
    assert!(ct.starts_with("multipart/form-data; boundary="));
    let bytes = builder.build();
    let s = String::from_utf8(bytes.to_vec()).unwrap();
    assert!(s.contains("----OxiHTTPBoundary"));
    assert!(s.ends_with("--\r\n"));
}

#[test]
fn test_text_field() {
    let bytes = MultipartBuilder::new(1, 2)
        .add_text("field1", "hello world")
        .build();
    let s = String::from_utf8(bytes.to_vec()).unwrap();
    assert!(s.contains("name=\"field1\""));
    assert!(s.contains("hello world"));
}

#[test]
fn test_file_part() {
    let bytes = MultipartBuilder::new(1, 3)
        .add_file("upload", "test.txt", "text/plain", Bytes::from("file contents"))
        .build();
    let s = String::from_utf8(bytes.to_vec()).unwrap();
    assert!(s.contains("filename=\"test.txt\""));
    assert!(s.contains("Content-Type: text/plain"));
    assert!(s.contains("file contents"));
}

#[test]
fn test_mixed_parts() {
    let bytes = MultipartBuilder::new(1, 4)
        .add_text("name", "Alice")
        .add_file(
            "avatar",
            "pic.png",
            "image/png",
            Bytes::from_static(b"\x89PNG\r\n"),
        )
        .build();
    // The raw bytes may not be valid UTF-8 (PNG magic bytes), so search byte-by-byte.
    let bytes_vec = bytes.to_vec();
    let header_section = &bytes_vec[..];
    // The headers and text fields are valid ASCII; convert the header region for inspection.
    // We search for the known ASCII patterns in the byte slice directly.
    assert!(
        bytes_vec
            .windows(b"name=\"name\"".len())
            .any(|w| w == b"name=\"name\""),
        "missing name field"
    );
    assert!(
        bytes_vec.windows(b"Alice".len()).any(|w| w == b"Alice"),
        "missing Alice"
    );
    assert!(
        header_section
            .windows(b"filename=\"pic.png\"".len())
            .any(|w| w == b"filename=\"pic.png\""),
        "missing filename"
    );
}

#[test]
fn test_boundary_collision_resolved() {
    let mut builder = MultipartBuilder::new(1, 5);
    // Inject the boundary string literally into a part body.
    let boundary_clone = builder.boundary().to_owned();
    builder = builder.add_text("field", boundary_clone.as_str());
    // build() must resolve the collision and produce valid output.
    let bytes = builder.build();
    let s = String::from_utf8(bytes.to_vec()).unwrap();
    // Final boundary marker must be present.
    assert!(s.ends_with("--\r\n"));
}

#[test]
fn test_content_type_header() {
    let b = MultipartBuilder::new(1, 6);
    let ct = b.content_type();
    let bnd = b.boundary().to_owned();
    assert_eq!(ct, format!("multipart/form-data; boundary={bnd}"));
}

#[test]
fn test_crlf_format() {
    let bytes = MultipartBuilder::new(1, 7).add_text("x", "y").build();
    let s = String::from_utf8(bytes.to_vec()).unwrap();
    // Headers end in CRLF; blank line (CRLF) before body.
    assert!(s.contains("\r\n\r\n"));
    // Part body ends in CRLF before next boundary.
    assert!(s.contains("y\r\n"));
}

#[test]
fn test_boundary_collision_unique() {
    let mut b = MultipartBuilder::new(1, 8);
    let bnd = b.boundary().to_owned();
    let body_with_boundary = format!("some text {bnd} more text");
    b = b.add_text("collision_field", &body_with_boundary);
    let bytes = b.build();
    let s = String::from_utf8(bytes.to_vec()).unwrap();
    assert!(s.ends_with("--\r\n"));
}

#[test]
fn test_custom_part() {
    let bytes = MultipartBuilder::new(1, 9)
        .add_part(Part::custom(
            vec![
                (
                    "Content-Disposition".into(),
                    "form-data; name=\"raw\"".into(),
                ),
                ("X-Custom".into(), "header-value".into()),
            ],
            Bytes::from("raw body"),
        ))
        .build();
    let s = String::from_utf8(bytes.to_vec()).unwrap();
    assert!(s.contains("X-Custom: header-value"));
    assert!(s.contains("raw body"));
}

#[test]
fn boundaries_have_a_fixed_form() {
    assert_eq!(generate_boundary(0, 0), "----OxiHTTPBoundary000000000000");
    assert_eq!(
        generate_boundary(999_999_999, 0x12345),
        "----OxiHTTPBoundary3b9ac9ff12345"
    );
    assert_ne!(generate_boundary(1, 2), generate_boundary(2, 1));
}

#[test]
fn the_whole_body_on_the_wire() {
    let builder = MultipartBuilder::new(0xabc, 1)
        .add_text("a", "1")
        .add_file("f", "n.bin", "x/y", Bytes::from_static(b"\x00\x01"));
    let copy = builder.clone();
    assert_eq!(copy.boundary(), builder.boundary());
    let expected: &[u8] = b"------OxiHTTPBoundary00000abc0001\r\n\
        Content-Disposition: form-data; name=\"a\"\r\n\r\n1\r\n\
        ------OxiHTTPBoundary00000abc0001\r\n\
        Content-Disposition: form-data; name=\"f\"; filename=\"n.bin\"\r\n\
        Content-Type: x/y\r\n\r\n\x00\x01\r\n\
        ------OxiHTTPBoundary00000abc0001--\r\n";
    assert_eq!(&builder.build()[..], expected);
    assert_eq!(&copy.build_checked().unwrap()[..], expected);
}

#[test]
fn collisions_number_the_boundary() {
    let own = generate_boundary(5, 5);
    let first = format!("{own}0001");
    let builder = MultipartBuilder::new(5, 5)
        .add_text("a", &own)
        .add_text("b", &format!("..{first}.."));
    assert_eq!(builder.find_unique_boundary(), format!("{own}0002"));
    assert_eq!(builder.boundary(), own);
    // The announced boundary is the one that the body has.
    assert_eq!(
        builder.content_type(),
        format!("multipart/form-data; boundary={own}0002")
    );
    let request = post_builder().multipart(builder.clone());
    assert_eq!(
        request.headers["content-type"],
        format!("multipart/form-data; boundary={own}0002")
    );
    let body = String::from_utf8(builder.build().to_vec()).unwrap();
    assert!(body.ends_with(&format!("--{own}0002--\r\n")));
}
