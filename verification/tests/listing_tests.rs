use portscan::listing::{parse_line, parse_ports, Entry};

fn lines(text: &[&str]) -> Vec<Vec<u8>> {
    text.iter().map(|line| line.as_bytes().to_vec()).collect()
}

#[test]
fn open_line_gives_its_port() {
    assert_eq!(parse_line(b"22/tcp   open  ssh"), Entry::Open(22));
    assert_eq!(parse_line(b"65535/tcp open unknown"), Entry::Open(65535));
}

#[test]
fn line_without_open_is_skipped() {
    assert_eq!(parse_line(b"23/tcp closed telnet"), Entry::Skipped);
    assert_eq!(parse_line(b"PORT   STATE SERVICE"), Entry::Skipped);
    assert_eq!(parse_line(b""), Entry::Skipped);
    assert_eq!(parse_line(b"ope"), Entry::Skipped);
    assert_eq!(parse_line(b"o pen"), Entry::Skipped);
    assert_eq!(parse_line(b"Open"), Entry::Skipped);
}

#[test]
fn open_is_found_anywhere_in_the_line() {
    assert_eq!(parse_line(b"open"), Entry::Malformed);
    assert_eq!(parse_line(b"80/open"), Entry::Open(80));
    assert_eq!(parse_line(b"80/tcp filtered|open"), Entry::Open(80));
    assert_eq!(parse_line(b"8080/tcp opened"), Entry::Open(8080));
    assert_eq!(parse_line(b"5 reopen"), Entry::Malformed);
}

#[test]
fn port_field_ends_at_the_first_slash() {
    assert_eq!(parse_line(b"443/tcp/open/extra"), Entry::Open(443));
    assert_eq!(parse_line(b"/tcp open"), Entry::Malformed);
    assert_eq!(parse_line(b"12 open"), Entry::Malformed);
    assert_eq!(parse_line(b"12open"), Entry::Malformed);
}

#[test]
fn port_field_takes_a_plus_and_leading_zeros() {
    assert_eq!(parse_line(b"+80/tcp open"), Entry::Open(80));
    assert_eq!(parse_line(b"0080/tcp open"), Entry::Open(80));
    assert_eq!(parse_line(b"0000000000000000000000443/tcp open"), Entry::Open(443));
    assert_eq!(parse_line(b"1/tcp open"), Entry::Open(1));
}

#[test]
fn zero_is_no_port() {
    assert_eq!(parse_line(b"0/tcp open x"), Entry::Malformed);
    assert_eq!(parse_line(b"+0/tcp open"), Entry::Malformed);
    assert_eq!(parse_line(b"0000/tcp open"), Entry::Malformed);
    assert_eq!(parse_ports(&lines(&["0/tcp open x"])), None);
    assert_eq!(parse_ports(&lines(&["22/tcp open ssh", "0/tcp open x"])), None);
}

#[test]
fn port_field_that_is_no_number_is_malformed() {
    assert_eq!(parse_line(b"+/tcp open"), Entry::Malformed);
    assert_eq!(parse_line(b"-80/tcp open"), Entry::Malformed);
    assert_eq!(parse_line(b" 80/tcp open"), Entry::Malformed);
    assert_eq!(parse_line(b"80 /tcp open"), Entry::Malformed);
    assert_eq!(parse_line(b"8o/tcp open"), Entry::Malformed);
    assert_eq!(parse_line(b"++80/tcp open"), Entry::Malformed);
    assert_eq!(parse_line(b"Not shown: 65530 closed ports, 3 open"), Entry::Malformed);
}

#[test]
fn port_above_the_highest_is_malformed() {
    assert_eq!(parse_line(b"65536/tcp open"), Entry::Malformed);
    assert_eq!(parse_line(b"99999999999999999999999/tcp open"), Entry::Malformed);
    assert_eq!(parse_line(b"4294967318/tcp open"), Entry::Malformed);
}

#[test]
fn reading_agrees_with_the_standard_parser() {
    let fields = ["0", "7", "+7", "007", "65535", "65536", "70000", "", "+", "-1", "1a", "a1", " 1"];
    for field in fields {
        let line = format!("{}/tcp open", field);
        let expected = match field.parse::<u16>() {
            Ok(port) if port >= 1 => Entry::Open(port),
            _ => Entry::Malformed,
        };
        assert_eq!(parse_line(line.as_bytes()), expected);
    }
}

#[test]
fn listing_gives_its_open_ports_ascending() {
    let listing = lines(&[
        "# Nmap 7.80 scan initiated",
        "Nmap scan report for 10.0.0.7",
        "PORT     STATE  SERVICE",
        "443/tcp  open   https",
        "23/tcp   closed telnet",
        "22/tcp   open   ssh",
        "8080/tcp open   http-proxy",
        "",
    ]);
    assert_eq!(parse_ports(&listing), Some(vec![22, 443, 8080]));
}

#[test]
fn empty_listing_gives_no_ports() {
    assert_eq!(parse_ports(&Vec::new()), Some(Vec::new()));
    assert_eq!(parse_ports(&lines(&["", "PORT STATE SERVICE"])), Some(Vec::new()));
}

#[test]
fn listing_with_a_malformed_line_is_refused() {
    let listing = lines(&["22/tcp open ssh", "Warning: 3 ports open", "80/tcp open http"]);
    assert_eq!(parse_ports(&listing), None);
    let listing = lines(&["22/tcp open ssh", "80/tcp open http", "x/tcp open"]);
    assert_eq!(parse_ports(&listing), None);
}

#[test]
fn listing_gives_each_port_once() {
    let listing = lines(&["80/tcp open http", "22/tcp open ssh", "80/udp open http"]);
    assert_eq!(parse_ports(&listing), Some(vec![22, 80]));
}

#[test]
fn listing_with_a_port_above_the_highest_is_refused() {
    assert_eq!(parse_ports(&lines(&["70000/tcp open x"])), None);
}
