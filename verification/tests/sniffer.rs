use small_apps::sniffer::{parse_u16, scan_ports, sort_ports, thread_count, Arguments, IpAddress};

fn args(v: &[&str]) -> Vec<String> {
    v.iter().map(|s| s.to_string()).collect()
}

const LOCALHOST: IpAddress = IpAddress::V4([127, 0, 0, 1]);

#[test]
fn too_few_arguments() {
    assert_eq!(Arguments::new(&args(&["prog"]), None).unwrap_err(), "not enough arguments");
}

#[test]
fn help_is_asked_for() {
    assert_eq!(Arguments::new(&args(&["prog", "-h"]), None).unwrap_err(), "help");
    assert_eq!(Arguments::new(&args(&["prog", "--help"]), None).unwrap_err(), "help");
}

#[test]
fn too_many_arguments() {
    let r = Arguments::new(&args(&["prog", "1.2.3.4", "5", "6"]), Some(LOCALHOST));
    assert_eq!(r.unwrap_err(), "too many arguments");
}

#[test]
fn invalid_ip_address() {
    let r = Arguments::new(&args(&["prog", "nope"]), None);
    assert_eq!(r.unwrap_err(), "invalid ip address");
}

#[test]
fn invalid_thread_count() {
    let r = Arguments::new(&args(&["prog", "127.0.0.1", "many"]), Some(LOCALHOST));
    assert_eq!(r.unwrap_err(), "invalid number of threads");
    let r = Arguments::new(&args(&["prog", "127.0.0.1", "70000"]), Some(LOCALHOST));
    assert_eq!(r.unwrap_err(), "invalid number of threads");
}

#[test]
fn address_and_threads() {
    let a = Arguments::new(&args(&["prog", "127.0.0.1", "+12"]), Some(LOCALHOST)).unwrap();
    assert_eq!(a.ipaddr, LOCALHOST);
    assert_eq!(a.threads, 12);
    let a = Arguments::new(&args(&["prog", "127.0.0.1"]), Some(LOCALHOST)).unwrap();
    assert_eq!(a.threads, 4);
}

#[test]
fn u16_parsing_matches_std() {
    for s in ["0", "7", "+5", "007", "65535", "65536", "-1", "", "+", " 5", "5a", "99999999999", "+-1", "٣"] {
        assert_eq!(parse_u16(s), s.parse::<u16>().ok(), "{s:?}");
    }
}

#[test]
fn thread_count_is_at_least_one() {
    assert_eq!(thread_count(0), 1);
    assert_eq!(thread_count(1), 1);
    assert_eq!(thread_count(9), 9);
}

#[test]
fn one_thread_ports() {
    let p = scan_ports(1, 4);
    assert_eq!(&p[..3], &[1, 5, 9]);
    assert_eq!(*p.last().unwrap(), 65533);
    assert_eq!(p.len(), 16384);
    assert_eq!(scan_ports(65535, 1), vec![65535]);
    assert_eq!(scan_ports(65535, 65535), vec![65535]);
}

#[test]
fn threads_share_every_port_once() {
    for n in [1u16, 3, 7, 100] {
        let mut seen = vec![0u8; 65536];
        for i in 0..n {
            for p in scan_ports(i + 1, n) {
                seen[p as usize] += 1;
            }
        }
        assert_eq!(seen[0], 0);
        assert!(seen[1..].iter().all(|&c| c == 1));
    }
}

#[test]
fn ports_come_out_sorted() {
    assert_eq!(sort_ports(&vec![443, 22, 80, 22, 8080]), vec![22, 22, 80, 443, 8080]);
    assert_eq!(sort_ports(&vec![]), Vec::<u16>::new());
}
