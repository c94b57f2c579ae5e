use beeline::bpf::{IpAddress, SocketAddress};
use beeline::fastpath::{configure, AttachError};
use beeline::fastpath::{
    build_route_table, fastpath_routes, render_response, RouteError, MAX_ROUTE_BODY, MAX_ROUTE_PATH,
};

#[test]
fn routes_point_into_the_assets_directory() {
    let routes = fastpath_routes("/srv/assets");
    let paths: Vec<&str> = routes.iter().map(|r| r.0.as_str()).collect();
    assert_eq!(
        paths,
        ["/index.html", "/style.css", "/script.js", "/honeycomb.png", "/rings.png", "/stripes.png"]
    );
    assert_eq!(routes[1].1, "/srv/assets/style.css");
    assert_eq!(routes[5].1, "/srv/assets/stripes.png");
}

#[test]
fn responses_carry_length_and_type() {
    let resp = render_response(Some("css"), b"body{}");
    assert_eq!(
        resp,
        b"HTTP/1.1 200 OK\r\nContent-Length: 6\r\nContent-Type: text/css\r\nConnection: keep-alive\r\n\r\nbody{}"
            .to_vec()
    );
    let html = render_response(Some("html"), &[b'x'; 1234]);
    assert!(html.starts_with(b"HTTP/1.1 200 OK\r\nContent-Length: 1234\r\nContent-Type: text/html; charset=utf-8\r\n"));
    let empty = render_response(None, b"");
    assert_eq!(
        empty,
        b"HTTP/1.1 200 OK\r\nContent-Length: 0\r\nContent-Type: application/octet-stream\r\nConnection: keep-alive\r\n\r\n"
            .to_vec()
    );
    let js = render_response(Some("js"), b"1");
    assert!(js.windows(22).any(|w| w == b"application/javascript"));
    let json = render_response(Some("json"), b"{}");
    assert!(json.windows(16).any(|w| w == b"application/json"));
    let png = render_response(Some("png"), b"");
    assert!(png.windows(24).any(|w| w == b"application/octet-stream"));
}

#[test]
fn route_table_pads_paths_and_bodies() {
    let routes = vec![("/a".to_string(), b"resp".to_vec()), ("/bc".to_string(), vec![])];
    let (table, declined) = build_route_table(&routes).expect("fits");
    assert!(declined.is_empty());
    assert_eq!(table.num_routes, 2);
    assert_eq!(table.routes.len(), 2);
    let r = &table.routes[0];
    assert_eq!(r.path.len(), MAX_ROUTE_PATH);
    assert_eq!(&r.path[..2], b"/a");
    assert!(r.path[2..].iter().all(|b| *b == 0));
    assert_eq!(r.path_len, 2);
    assert_eq!(r.body.len(), MAX_ROUTE_BODY);
    assert_eq!(&r.body[..4], b"resp");
    assert_eq!(r.body_len, 4);
    assert_eq!(table.routes[1].path_len, 3);
    assert_eq!(table.routes[1].body_len, 0);
}

#[test]
fn route_table_refuses_too_many_routes() {
    let routes: Vec<(String, Vec<u8>)> = (0..17).map(|i| (format!("/{i}"), vec![])).collect();
    assert!(matches!(build_route_table(&routes), Err(RouteError::TooManyRoutes(17))));
    let routes: Vec<(String, Vec<u8>)> = (0..16).map(|i| (format!("/{i}"), vec![])).collect();
    assert!(build_route_table(&routes).is_ok());
}

#[test]
fn route_table_declines_long_paths_and_bodies() {
    let long_path = format!("/{}", "p".repeat(128));
    let routes = vec![
        ("/big".to_string(), vec![0; 4097]),
        ("/ok".to_string(), vec![1; 4096]),
        (long_path.clone(), vec![0; 5000]),
        ("/small".to_string(), b"hi".to_vec()),
    ];
    let (table, declined) = build_route_table(&routes).expect("not too many");
    assert_eq!(table.num_routes, 2);
    assert_eq!(table.routes.len(), 2);
    assert_eq!(&table.routes[0].path[..3], b"/ok");
    assert_eq!(table.routes[0].body_len, 4096);
    assert_eq!(&table.routes[1].path[..6], b"/small");
    assert_eq!(declined.len(), 2);
    assert!(matches!(&declined[0], RouteError::BodyTooLong(p) if p == "/big"));
    assert!(matches!(&declined[1], RouteError::PathTooLong(p) if *p == long_path));
    let exact_path = format!("/{}", "p".repeat(127));
    let (table, declined) = build_route_table(&vec![(exact_path, vec![])]).expect("fits");
    assert_eq!((table.num_routes, declined.len()), (1, 0));
}

#[test]
fn images_are_declined_by_the_route_table() {
    let image = vec![0x89; 20000];
    let routes: Vec<(String, Vec<u8>)> = fastpath_routes("/srv")
        .into_iter()
        .map(|(path, file)| {
            let ext = file.rsplit('.').next().map(|e| e.to_string());
            let body = if ext.as_deref() == Some("png") { image.clone() } else { b"x".to_vec() };
            (path, render_response(ext.as_deref(), &body))
        })
        .collect();
    let (table, declined) = build_route_table(&routes).expect("six routes");
    assert_eq!(table.num_routes, 3);
    let declined: Vec<&str> = declined
        .iter()
        .map(|e| match e {
            RouteError::BodyTooLong(p) => p.as_str(),
            _ => panic!("unexpected reason"),
        })
        .collect();
    assert_eq!(declined, ["/honeycomb.png", "/rings.png", "/stripes.png"]);
}

#[test]
fn fast_path_is_configured_for_ipv4_servers() {
    let v4 = SocketAddress { ip: IpAddress::V4([127, 0, 0, 1]), port: 8080 };
    let routes = vec![("/a".to_string(), b"x".to_vec()), ("/b".to_string(), vec![0; 4097])];
    let config = configure(&v4, &routes).expect("ipv4");
    assert_eq!(config.ip4, u32::from_ne_bytes([127, 0, 0, 1]));
    assert_eq!(config.port, 8080);
    assert_eq!(config.table.num_routes, 1);
    assert!(matches!(&config.declined[..], [RouteError::BodyTooLong(p)] if p == "/b"));
    let v6 = SocketAddress { ip: IpAddress::V6([0, 0, 0, 0, 0, 0, 0, 1]), port: 8080 };
    assert!(matches!(configure(&v6, &routes), Err(AttachError::UnsupportedAddressFamily)));
    let many: Vec<(String, Vec<u8>)> = (0..17).map(|i| (format!("/{i}"), vec![])).collect();
    assert!(matches!(configure(&v6, &many), Err(AttachError::TooManyRoutes(17))));
}
