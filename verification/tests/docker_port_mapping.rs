use mesh::docker::{
    decode_chunked_body, endpoint_from_bindings, endpoint_from_ports_entry, inspect_request,
    inspect_response_body, normalize_public_host, published_port_key, ChunkError,
    DockerPortBinding, InspectError, PortsEntry,
};

fn binding(host_ip: &str, host_port: &str) -> DockerPortBinding {
    DockerPortBinding {
        host_ip: host_ip.to_string(),
        host_port: host_port.to_string(),
    }
}

#[test]
fn chunked_body_is_decoded() {
    let decoded = decode_chunked_body("4\r\nWiki\r\n5\r\npedia\r\n0\r\n\r\n").expect("valid body");
    assert_eq!(decoded, "Wikipedia");
}

#[test]
fn chunk_sizes_are_hexadecimal_and_trimmed() {
    let data = "abcdefghijklmnop";
    let body = format!(" 10 \r\n{}\r\n0\r\n\r\n", data);
    assert_eq!(decode_chunked_body(&body).expect("valid body"), data);
    assert_eq!(decode_chunked_body("A\r\n0123456789\r\n0\r\n").expect("valid body"), "0123456789");
}

#[test]
fn chunk_sizes_count_bytes_not_characters() {
    assert_eq!(decode_chunked_body("2\r\né\r\n0\r\n\r\n").expect("valid body"), "é");
}

#[test]
fn zero_chunk_ends_the_body() {
    assert_eq!(decode_chunked_body("0\r\n").expect("valid body"), "");
    assert_eq!(decode_chunked_body("3\r\nabc\r\n0\r\ntrailing garbage").expect("valid body"), "abc");
}

#[test]
fn chunked_body_errors() {
    assert!(matches!(decode_chunked_body("4\nWiki"), Err(ChunkError::MissingSizeTerminator)));
    assert!(matches!(decode_chunked_body("4\r\nWiki\r\n"), Err(ChunkError::MissingSizeTerminator)));
    assert!(matches!(decode_chunked_body("zz\r\nWiki\r\n"), Err(ChunkError::InvalidSize)));
    assert!(matches!(decode_chunked_body("\r\nWiki\r\n"), Err(ChunkError::InvalidSize)));
    assert!(matches!(decode_chunked_body("10\r\nabc\r\n"), Err(ChunkError::Truncated)));
    assert!(matches!(decode_chunked_body("4\r\nWiki"), Err(ChunkError::Truncated)));
    assert!(matches!(decode_chunked_body("1\r\né\r\n0\r\n\r\n"), Err(ChunkError::SplitCharacter)));
}

#[test]
fn plain_response_body_is_returned_as_is() {
    let response = "HTTP/1.1 200 OK\r\nContent-Type: application/json\r\n\r\n{\"a\":1}";
    assert_eq!(inspect_response_body(response).expect("has a body"), "{\"a\":1}");
}

#[test]
fn chunked_response_body_is_decoded() {
    let response =
        "HTTP/1.1 200 OK\r\nTransfer-Encoding: Chunked\r\nServer: Docker\r\n\r\n7\r\n{\"a\":1}\r\n0\r\n\r\n";
    assert_eq!(inspect_response_body(response).expect("has a body"), "{\"a\":1}");
}

#[test]
fn chunked_header_must_be_a_whole_line() {
    let response = "HTTP/1.1 200 OK\r\nX-Transfer-Encoding: chunked\r\n\r\n7\r\n";
    assert_eq!(inspect_response_body(response).expect("has a body"), "7\r\n");
}

#[test]
fn response_without_blank_line_has_no_body() {
    assert!(matches!(
        inspect_response_body("HTTP/1.1 200 OK\r\nServer: Docker\r\n"),
        Err(InspectError::MissingBody)
    ));
}

#[test]
fn malformed_chunked_response_is_refused() {
    let response = "HTTP/1.1 200 OK\r\ntransfer-encoding: chunked\r\n\r\nxyz\r\n";
    assert!(matches!(
        inspect_response_body(response),
        Err(InspectError::BadChunkedBody(ChunkError::InvalidSize))
    ));
}

#[test]
fn port_key_names_the_tcp_port() {
    assert_eq!(published_port_key(8080), "8080/tcp");
    assert_eq!(published_port_key(0), "0/tcp");
    assert_eq!(published_port_key(65535), "65535/tcp");
}

#[test]
fn public_host_prefers_configuration_then_binding() {
    assert_eq!(normalize_public_host("0.0.0.0", None), "127.0.0.1");
    assert_eq!(normalize_public_host("::", None), "127.0.0.1");
    assert_eq!(normalize_public_host("   ", None), "127.0.0.1");
    assert_eq!(normalize_public_host(" 10.0.0.5 ", None), "10.0.0.5");
    assert_eq!(normalize_public_host("0.0.0.0", Some(" mesh.example.com ")), "mesh.example.com");
    assert_eq!(normalize_public_host("10.0.0.5", Some("   ")), "10.0.0.5");
}

#[test]
fn first_binding_gives_the_endpoint() {
    let endpoint = endpoint_from_bindings(
        Some(vec![binding("0.0.0.0", "49153"), binding("::", "49154")]),
        None,
    )
    .expect("port is published");
    assert_eq!(endpoint.ip, "127.0.0.1");
    assert_eq!(endpoint.port, 49153);
    assert_eq!(endpoint.scheme, "http");

    let endpoint = endpoint_from_bindings(Some(vec![binding("0.0.0.0", "+80")]), Some("host.example"))
        .expect("port is published");
    assert_eq!(endpoint.ip, "host.example");
    assert_eq!(endpoint.port, 80);
}

#[test]
fn unpublished_or_invalid_bindings_are_refused() {
    assert!(matches!(endpoint_from_bindings(None, None), Err(InspectError::PortNotPublished)));
    assert!(matches!(endpoint_from_bindings(Some(vec![]), None), Err(InspectError::NoHostBindings)));
    assert!(matches!(
        endpoint_from_bindings(Some(vec![binding("0.0.0.0", "70000")]), None),
        Err(InspectError::InvalidHostPort)
    ));
    assert!(matches!(
        endpoint_from_bindings(Some(vec![binding("0.0.0.0", " 80")]), None),
        Err(InspectError::InvalidHostPort)
    ));
    assert!(matches!(
        endpoint_from_bindings(Some(vec![binding("0.0.0.0", "")]), None),
        Err(InspectError::InvalidHostPort)
    ));
}

#[test]
fn chunked_encoding_round_trips() {
    assert_eq!(
        decode_chunked_body("5\r\nhello\r\n6\r\n world\r\n0\r\n\r\n").expect("valid body"),
        "hello world"
    );
    let chunks = ["a".repeat(17), "b".repeat(255), "c".to_string()];
    let mut body = String::new();
    for chunk in &chunks {
        body.push_str(&format!("{:x}\r\n{}\r\n", chunk.len(), chunk));
    }
    body.push_str("0\r\n\r\n");
    assert_eq!(decode_chunked_body(&body).expect("valid body"), chunks.concat());
}

#[test]
fn inspect_request_names_the_container() {
    assert_eq!(
        inspect_request("abc123"),
        "GET /containers/abc123/json HTTP/1.1\r\nHost: docker\r\nConnection: close\r\n\r\n"
    );
}

#[test]
fn port_map_entries_without_bindings_are_not_published() {
    assert!(matches!(
        endpoint_from_ports_entry(PortsEntry::Missing, None),
        Err(InspectError::PortNotPublished)
    ));
    assert!(matches!(
        endpoint_from_ports_entry(PortsEntry::Null, None),
        Err(InspectError::PortNotPublished)
    ));
    assert!(matches!(
        endpoint_from_ports_entry(PortsEntry::Malformed, None),
        Err(InspectError::PortNotPublished)
    ));
    assert!(matches!(
        endpoint_from_ports_entry(PortsEntry::Bindings(vec![]), None),
        Err(InspectError::NoHostBindings)
    ));
    let endpoint = endpoint_from_ports_entry(
        PortsEntry::Bindings(vec![binding("0.0.0.0", "49160")]),
        Some("mesh.example.com"),
    )
    .expect("port is published");
    assert_eq!(endpoint.ip, "mesh.example.com");
    assert_eq!(endpoint.port, 49160);
    assert_eq!(endpoint.scheme, "http");
}
