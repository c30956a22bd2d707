use esp32_workshop::bare_metal::reply::{format_count_json, reply_to, route};
use esp32_workshop::bare_metal::request::{
    after_read, extract_request_path, is_white_space, path_of, request_text, ReadStep,
    REQUEST_BYTES,
};
use esp32_workshop::bare_metal::tasks::{
    press_message, sample_button, server_next, wifi_next, ServerPhase, WifiPhase,
};
use esp32_workshop::peripherals::button::PressCounter;

#[test]
fn paths_of_requests() {
    assert_eq!(extract_request_path("GET /api/count HTTP/1.1\r\nHost: x\r\n\r\n"), "/api/count");
    assert_eq!(extract_request_path("GET / HTTP/1.1"), "/");
    assert_eq!(extract_request_path("  POST\t/a/b  HTTP/1.1\r\n"), "/a/b");
    assert_eq!(extract_request_path("GET\r\n/second HTTP/1.1\r\n"), "/");
    assert_eq!(extract_request_path("GET"), "/");
    assert_eq!(extract_request_path(""), "/");
    assert_eq!(extract_request_path("\r\nGET /x"), "/");
    assert_eq!(extract_request_path("GET \u{3000}/ü\u{85}rest"), "/ü");
    assert_eq!(extract_request_path("GET /a\rb HTTP"), "/a");
    assert_eq!(extract_request_path("GET /path"), "/path");
}

#[test]
fn white_space_is_that_of_the_standard_library() {
    for code in 0u32..0x11_0000 {
        if let Some(c) = char::from_u32(code) {
            assert_eq!(is_white_space(c), c.is_whitespace(), "{:x}", code);
        }
    }
}

#[test]
fn paths_agree_with_split_whitespace() {
    for s in ["A B C", " A  B", "A\u{a0}B", "A", "", "\tA\tB\r\nC D", "A \r\nB"] {
        let line = s.split("\r\n").next().unwrap();
        assert_eq!(extract_request_path(s), line.split_whitespace().nth(1).unwrap_or("/"));
    }
}

#[test]
fn requests_that_are_not_utf8_ask_for_the_index() {
    assert_eq!(request_text(b"GET /x \xff"), "");
    assert_eq!(path_of(b"GET /x \xff"), "/");
    assert_eq!(path_of(b"GET /x HTTP/1.1\r\n\r\n"), "/x");
}

#[test]
fn reading_goes_on_until_the_blank_line() {
    let mut buffer = [0u8; REQUEST_BYTES];
    let request = b"GET / HTTP/1.1\r\nHost: x\r\n\r\n";
    buffer[..request.len()].copy_from_slice(request);
    assert_eq!(after_read(&buffer, 0, 0), ReadStep::Closed);
    assert_eq!(after_read(&buffer, 5, 0), ReadStep::Closed);
    assert_eq!(after_read(&buffer, 0, 10), ReadStep::More);
    assert_eq!(after_read(&buffer, 10, request.len() - 11), ReadStep::More);
    assert_eq!(after_read(&buffer, 10, request.len() - 10), ReadStep::Complete);
    buffer[0] = 0xff;
    assert_eq!(after_read(&buffer, 0, request.len()), ReadStep::More);
    assert_eq!(after_read(&buffer, 1, REQUEST_BYTES - 1), ReadStep::Complete);
}

#[test]
fn counts_as_json() {
    let mut buffer = [0u8; 64];
    assert_eq!(format_count_json(0, &mut buffer), "{\"count\":0}");
    assert_eq!(format_count_json(u32::MAX, &mut buffer), "{\"count\":4294967295}");
    assert_eq!(&buffer[..20], b"{\"count\":4294967295}");
    let mut exact = [0u8; 20];
    assert_eq!(format_count_json(u32::MAX, &mut exact), "{\"count\":4294967295}");
}

#[test]
fn counts_in_buffers_that_are_too_small() {
    let mut b = [7u8; 19];
    assert_eq!(format_count_json(u32::MAX, &mut b), "{\"count\":4294967295");
    let mut b = [7u8; 18];
    assert_eq!(format_count_json(u32::MAX, &mut b), "{\"count\":");
    assert_eq!(&b[9..], &[7u8; 9]);
    let mut b = [7u8; 8];
    assert_eq!(format_count_json(1, &mut b), "");
    assert_eq!(b, [7u8; 8]);
    assert_eq!(format_count_json(1, &mut []), "");
}

#[test]
fn known_paths_are_served_and_others_are_not_found() {
    let r = route("/", "<html>", "body{}", "{}");
    assert_eq!(
        r.header,
        "HTTP/1.1 200 OK\r\nContent-Type: text/html; charset=utf-8\r\nConnection: close\r\n\r\n"
    );
    assert_eq!(r.body, "<html>");
    let r = route("/style.css", "<html>", "body{}", "{}");
    assert_eq!(
        r.header,
        "HTTP/1.1 200 OK\r\nContent-Type: text/css; charset=utf-8\r\nConnection: close\r\n\r\n"
    );
    assert_eq!(r.body, "body{}");
    let r = route("/api/count", "<html>", "body{}", "{\"count\":3}");
    assert_eq!(
        r.header,
        "HTTP/1.1 200 OK\r\nContent-Type: application/json\r\nCache-Control: no-cache\r\nConnection: close\r\n\r\n"
    );
    assert_eq!(r.body, "{\"count\":3}");
    for path in ["/index.html", "", "/Style.css", "/api/count/"] {
        let r = route(path, "<html>", "body{}", "{}");
        assert_eq!(
            format!("{}{}", r.header, r.body),
            "HTTP/1.1 404 Not Found\r\nContent-Type: text/plain\r\nConnection: close\r\n\r\n404 - Not Found"
        );
    }
}

#[test]
fn replies_to_whole_requests() {
    let mut json = [0u8; 64];
    let r = reply_to(b"GET /api/count HTTP/1.1\r\n\r\n", 42, &mut json, "<html>", "css");
    assert_eq!(r.body, "{\"count\":42}");
    for request in ["GET /api/count HTTP/1.1", "POST /api/count x", "x /api/count \r\n\r\n/"] {
        let mut json = [0u8; 20];
        let r = reply_to(request.as_bytes(), u32::MAX, &mut json, "<html>", "css");
        assert_eq!(r.body, "{\"count\":4294967295}");
    }
    let mut json = [0u8; 64];
    assert_eq!(reply_to(b"\xff", 42, &mut json, "<html>", "css").body, "<html>");
}

#[test]
fn button_samples_and_their_delays() {
    let mut b = PressCounter::new();
    let samples = [
        (false, 30, 0),
        (true, 80, 1),
        (true, 30, 1),
        (false, 230, 1),
        (false, 30, 1),
        (true, 80, 2),
    ];
    for (low, delay, count) in samples {
        let before = b.count;
        let step = sample_button(&mut b, low);
        assert_eq!(step.delay_ms, delay);
        assert_eq!(step.message, if count > before { Some("Hello") } else { None });
        assert_eq!((b.pressed, b.count), (low, count));
    }
}

#[test]
fn a_press_is_greeted() {
    assert_eq!(press_message(), "Hello");
    let mut b = PressCounter::new();
    let greetings: Vec<bool> = [true, true, false, true]
        .iter()
        .map(|low| sample_button(&mut b, *low).message == Some("Hello"))
        .collect();
    assert_eq!(greetings, [true, false, false, true]);
}

#[test]
fn wifi_keeps_connecting() {
    assert_eq!(wifi_next(WifiPhase::CheckConnected, true), (WifiPhase::AwaitDisconnect, 0));
    assert_eq!(wifi_next(WifiPhase::CheckConnected, false), (WifiPhase::CheckStarted, 0));
    assert_eq!(wifi_next(WifiPhase::AwaitDisconnect, true), (WifiPhase::CheckStarted, 5000));
    assert_eq!(wifi_next(WifiPhase::CheckStarted, false), (WifiPhase::Start, 0));
    assert_eq!(wifi_next(WifiPhase::CheckStarted, true), (WifiPhase::Connect, 0));
    assert_eq!(wifi_next(WifiPhase::Connect, true), (WifiPhase::CheckConnected, 0));
    assert_eq!(wifi_next(WifiPhase::Connect, false), (WifiPhase::CheckConnected, 5000));
    for start in [
        WifiPhase::CheckConnected,
        WifiPhase::AwaitDisconnect,
        WifiPhase::CheckStarted,
        WifiPhase::Start,
        WifiPhase::Scan,
        WifiPhase::Connect,
    ] {
        for answers in 0..32u32 {
            let mut phase = start;
            let mut tried = phase == WifiPhase::Connect;
            for i in 0..5 {
                phase = wifi_next(phase, answers >> i & 1 == 1).0;
                tried = tried || phase == WifiPhase::Connect;
            }
            assert!(tried);
        }
    }
}

#[test]
fn the_server_outlives_its_requests() {
    assert_eq!(server_next(ServerPhase::CheckLink, false), (ServerPhase::CheckLink, 500));
    assert_eq!(server_next(ServerPhase::CheckLink, true), (ServerPhase::CheckAddress, 0));
    assert_eq!(server_next(ServerPhase::CheckAddress, false), (ServerPhase::CheckAddress, 500));
    assert_eq!(server_next(ServerPhase::CheckAddress, true), (ServerPhase::Accept, 0));
    assert_eq!(server_next(ServerPhase::Accept, false), (ServerPhase::Accept, 0));
    assert_eq!(server_next(ServerPhase::Accept, true), (ServerPhase::Handle, 0));
    assert_eq!(server_next(ServerPhase::Handle, true), (ServerPhase::Accept, 100));
    assert_eq!(server_next(ServerPhase::Handle, false), (ServerPhase::Accept, 100));
}
