use ota_core::config::Config;
use ota_core::ota::{Action, Error, Event, Ota, OtaCycle, Phase};

/// A scripted server and flash that answer the cycle's actions.
struct World {
    info_reads: Vec<Vec<u8>>,
    fw_reads: Vec<Vec<u8>>,
    fail_write_at: Option<u32>,
    sessions: usize,
    open: bool,
    closes: usize,
    sent: Vec<Vec<u8>>,
    erases: Vec<(u32, u32)>,
    writes: Vec<(u32, Vec<u8>)>,
    activated: usize,
    marked: usize,
    reboots: usize,
}

impl World {
    fn new(info_reads: Vec<Vec<u8>>, fw_reads: Vec<Vec<u8>>) -> World {
        World {
            info_reads,
            fw_reads,
            fail_write_at: None,
            sessions: 0,
            open: false,
            closes: 0,
            sent: Vec::new(),
            erases: Vec::new(),
            writes: Vec::new(),
            activated: 0,
            marked: 0,
            reboots: 0,
        }
    }

    fn read(&mut self, max: usize) -> Vec<u8> {
        assert!(self.open, "read without a session");
        let queue = if self.sessions == 1 { &mut self.info_reads } else { &mut self.fw_reads };
        if queue.is_empty() {
            return Vec::new();
        }
        let mut first = queue.remove(0);
        if first.len() > max {
            let rest = first.split_off(max);
            queue.insert(0, rest);
        }
        first
    }

    fn run(&mut self, cycle: &mut OtaCycle) -> Result<(), Error> {
        let mut event = Event::Start;
        for _ in 0..100_000 {
            event = match cycle.step(event) {
                Action::Connect => {
                    assert!(!self.open);
                    self.sessions += 1;
                    self.open = true;
                    Event::Connected
                },
                Action::Send(bytes) => {
                    self.sent.push(bytes);
                    Event::Sent
                },
                Action::Read(max) => Event::Received(self.read(max)),
                Action::Close => {
                    self.open = false;
                    self.closes += 1;
                    Event::Closed
                },
                Action::Erase(a, b) => {
                    self.erases.push((a, b));
                    Event::Erased
                },
                Action::Write(w) => {
                    if self.fail_write_at == Some(w.offset) {
                        Event::WriteFailed
                    } else {
                        self.writes.push((w.offset, w.data));
                        Event::Written
                    }
                },
                Action::Activate => {
                    assert!(!self.open);
                    self.activated += 1;
                    Event::Activated
                },
                Action::MarkNew => {
                    self.marked += 1;
                    Event::Marked
                },
                Action::Reboot => {
                    self.reboots += 1;
                    Event::Start
                },
                Action::Finish(r) => {
                    assert!(!self.open, "cycle ended with a session open");
                    assert_eq!(cycle.current_phase(), Phase::Done);
                    return r;
                },
            };
        }
        panic!("cycle did not end");
    }
}

fn settings() -> Config {
    Config {
        device_id: "node-1",
        location: "lab",
        measurement_interval_seconds: 60,
        mqtt_hostname: "broker",
        mqtt_password: "SECRET-REDACTED",
        mqtt_port: 8883,
        mqtt_topic: "t",
        mqtt_username: "u",
        ota_hostname: Some("ota.local"),
        ota_port: Some(8443),
        tls_ca: None,
        tls_cert: None,
        tls_key: None,
        wifi_psk: "SECRET-REDACTED",
        wifi_ssid: "net",
    }
}

fn info_response(body: &str) -> Vec<Vec<u8>> {
    vec![format!("HTTP/1.1 200 OK\r\nContent-Type: text/plain\r\n\r\n{}", body).into_bytes()]
}

fn image(n: usize) -> Vec<u8> {
    (0..n).map(|i| (i % 251) as u8).collect()
}

#[test]
fn scenario_newer_version_is_flashed_and_activated() {
    let img = image(1000);
    let fw = vec![
        b"HTTP/1.1 200 OK\r\n\r\n".to_vec(),
        img[..300].to_vec(),
        img[300..301].to_vec(),
        img[301..].to_vec(),
    ];
    let mut world = World::new(info_response("2.1.0\n12345\n1000\n"), fw);
    let ota = Ota::new(&settings(), "2.0.5").ok().unwrap();
    let mut cycle = ota.begin_check();
    let r = world.run(&mut cycle);
    assert_eq!(r, Ok(()));
    assert_eq!(cycle.bytes_written(), 1000);
    assert_eq!(world.sessions, 2);
    assert_eq!(world.closes, 2);
    assert_eq!(world.activated, 1);
    assert_eq!(world.marked, 1);
    assert_eq!(world.reboots, 1);
    assert_eq!(world.erases, vec![(0, 4096)]);
    let mut data = Vec::new();
    let mut next = 0u32;
    for (off, d) in &world.writes {
        assert_eq!(*off, next);
        assert_eq!(d.len() % 4, 0);
        next += d.len() as u32;
        data.extend_from_slice(d);
    }
    assert_eq!(data, img);
    assert_eq!(
        world.sent[0],
        b"GET /version?device=node-1 HTTP/1.1\r\nHost: ota.local\r\nConnection: close\r\n\r\n".to_vec()
    );
    assert_eq!(
        world.sent[1],
        b"GET /firmware?device=node-1 HTTP/1.1\r\nHost: ota.local\r\nConnection: close\r\n\r\n".to_vec()
    );
}

#[test]
fn scenario_same_version_skips_without_flash() {
    let mut world = World::new(info_response("2.0.5\n12345\n1000\n"), vec![image(1000)]);
    let ota = Ota::new(&settings(), "2.0.5").ok().unwrap();
    let mut cycle = ota.begin_check();
    assert_eq!(world.run(&mut cycle), Ok(()));
    assert_eq!(world.sessions, 1);
    assert_eq!(world.closes, 1);
    assert!(world.erases.is_empty());
    assert!(world.writes.is_empty());
    assert_eq!(world.activated, 0);
    assert_eq!(world.reboots, 0);
}

#[test]
fn scenario_missing_size_line_is_info_error() {
    let mut world = World::new(info_response("2.1.0\n12345"), vec![]);
    let ota = Ota::new(&settings(), "2.0.5").ok().unwrap();
    let mut cycle = ota.begin_check();
    assert_eq!(world.run(&mut cycle), Err(Error::Info));
    assert_eq!(world.sessions, 1);
    assert_eq!(world.closes, 1);
    assert!(world.writes.is_empty());
}

#[test]
fn scenario_flash_write_failure_is_ota_error() {
    let img = image(100_000);
    let mut fw = vec![b"HTTP/1.1 200 OK\r\n\r\n".to_vec()];
    for c in img.chunks(2048) {
        fw.push(c.to_vec());
    }
    let mut world = World::new(info_response("2.1.0\n1\n100000"), fw);
    world.fail_write_at = Some(40960);
    let ota = Ota::new(&settings(), "2.0.5").ok().unwrap();
    let mut cycle = ota.begin_check();
    assert_eq!(world.run(&mut cycle), Err(Error::Ota));
    assert_eq!(world.activated, 0);
    assert_eq!(world.marked, 0);
    assert_eq!(world.reboots, 0);
    assert_eq!(world.closes, world.sessions);
    assert_eq!(world.writes.last().unwrap().0 + 2048, 40960);
}

#[test]
fn short_image_is_not_activated() {
    let img = image(900);
    let fw = vec![b"HTTP/1.1 200 OK\r\n\r\n".to_vec(), img];
    let mut world = World::new(info_response("2.1.0\n1\n1000"), fw);
    let ota = Ota::new(&settings(), "2.0.5").ok().unwrap();
    let mut cycle = ota.begin_check();
    assert_eq!(world.run(&mut cycle), Err(Error::Firmware));
    assert_eq!(cycle.bytes_written(), 900);
    assert_eq!(world.activated, 0);
    assert_eq!(world.reboots, 0);
}

#[test]
fn oversized_image_is_refused() {
    let img = image(1100);
    let fw = vec![b"HTTP/1.1 200 OK\r\n\r\n".to_vec(), img];
    let mut world = World::new(info_response("2.1.0\n1\n1000"), fw);
    let ota = Ota::new(&settings(), "2.0.5").ok().unwrap();
    let mut cycle = ota.begin_check();
    assert_eq!(world.run(&mut cycle), Err(Error::Firmware));
    assert_eq!(world.activated, 0);
}

#[test]
fn body_in_header_read_is_kept() {
    let img = image(10);
    let mut first = b"HTTP/1.1 200 OK\r\n\r\n".to_vec();
    first.extend_from_slice(&img[..7]);
    let fw = vec![first, img[7..].to_vec()];
    let mut world = World::new(info_response("3.0.0-rc.1\n1\n10"), fw);
    let ota = Ota::new(&settings(), "3.0.0-beta.4").ok().unwrap();
    let mut cycle = ota.begin_check();
    assert_eq!(world.run(&mut cycle), Ok(()));
    assert_eq!(cycle.bytes_written(), 10);
    let data: Vec<u8> = world.writes.iter().flat_map(|(_, d)| d.clone()).collect();
    assert_eq!(&data[..10], &img[..]);
    assert_eq!(&data[10..], &[0xFF, 0xFF]);
}

#[test]
fn headers_without_end_are_info_error() {
    let mut world = World::new(vec![vec![b'x'; 300]], vec![]);
    let ota = Ota::new(&settings(), "1.0.0").ok().unwrap();
    let mut cycle = ota.begin_check();
    assert_eq!(world.run(&mut cycle), Err(Error::Info));
    assert_eq!(world.closes, 1);
}

#[test]
fn connect_failure_is_connection_error() {
    let ota = Ota::new(&settings(), "1.0.0").ok().unwrap();
    let mut cycle = ota.begin_check();
    assert!(matches!(cycle.step(Event::Start), Action::Connect));
    assert!(matches!(cycle.step(Event::ConnectFailed), Action::Finish(Err(Error::Connection))));
    assert!(matches!(cycle.step(Event::Start), Action::Finish(Err(Error::Connection))));
}

#[test]
fn activation_failure_is_ota_error() {
    let ota = Ota::new(&settings(), "1.0.0").ok().unwrap();
    let mut cycle = ota.begin_check();
    let mut e = Event::Start;
    let mut reads = vec![info_response("1.0.1\n1\n4")[0].clone()];
    let mut fw = vec![b"HTTP/1.1 200 OK\r\n\r\nabcd".to_vec()];
    let mut sessions = 0;
    loop {
        e = match cycle.step(e) {
            Action::Connect => {
                sessions += 1;
                Event::Connected
            },
            Action::Send(_) => Event::Sent,
            Action::Read(_) => {
                let q = if sessions == 1 { &mut reads } else { &mut fw };
                Event::Received(if q.is_empty() { Vec::new() } else { q.remove(0) })
            },
            Action::Close => Event::Closed,
            Action::Erase(..) => Event::Erased,
            Action::Write(_) => Event::Written,
            Action::Activate => Event::ActivateFailed,
            Action::MarkNew | Action::Reboot => panic!("must not follow a failed activation"),
            Action::Finish(r) => {
                assert_eq!(r, Err(Error::Ota));
                break;
            },
        };
    }
}

#[test]
fn missing_server_settings_are_config_errors() {
    let mut c = settings();
    c.ota_hostname = None;
    assert!(matches!(Ota::new(&c, "1.0.0"), Err(Error::Config)));
    let mut c = settings();
    c.ota_port = None;
    assert!(matches!(Ota::new(&c, "1.0.0"), Err(Error::Config)));
    let ota = Ota::new(&settings(), "1.0.0").ok().unwrap();
    assert_eq!(ota.hostname(), "ota.local");
    assert_eq!(ota.port(), 8443);
}

#[test]
fn stream_read_error_is_firmware_error() {
    let ota = Ota::new(&settings(), "1.0.0").ok().unwrap();
    let mut cycle = ota.begin_check();
    let mut e = Event::Start;
    let mut sessions = 0;
    let mut fw_reads = 0;
    loop {
        e = match cycle.step(e) {
            Action::Connect => {
                sessions += 1;
                Event::Connected
            },
            Action::Send(_) => Event::Sent,
            Action::Read(_) => {
                if sessions == 1 {
                    Event::Received(info_response("1.0.1\n1\n8")[0].clone())
                } else {
                    fw_reads += 1;
                    if fw_reads == 1 {
                        Event::Received(b"HTTP/1.1 200 OK\r\n\r\nab".to_vec())
                    } else {
                        Event::ReadFailed { end_of_stream: false }
                    }
                }
            },
            Action::Close => Event::Closed,
            Action::Erase(..) => Event::Erased,
            Action::Write(_) => Event::Written,
            other => {
                assert!(matches!(other, Action::Finish(Err(Error::Firmware))));
                break;
            },
        };
    }
}
