use procdog::backends::linuxps::LinuxPsBackend;
use procdog::backends::named_record;
use procdog::backends::netbsd_sysctl::{
    FillFailure, FillRequest, NetBsdSysctlBackend, Plan, RecordLayout, MAX_ATTEMPTS,
};
use procdog::backends::stps::PsBackend;

fn rows(rows: &[(i32, &str)]) -> Vec<(i32, String)> {
    rows.iter().map(|(pid, name)| (*pid, name.to_string())).collect()
}

fn by_std(text: &str) -> Vec<(i32, String)> {
    let mut result = Vec::new();
    for line in text.lines().skip(1) {
        let mut parts = line.trim().split_whitespace();
        if let (Some(pid), Some(name)) = (parts.next(), parts.next()) {
            if let Ok(pid) = pid.parse::<i32>() {
                result.push((pid, name.to_string()));
            }
        }
    }
    result
}

#[test]
fn ps_listing_is_read_line_by_line() {
    let text = "  PID COMMAND\n    1 systemd\n  100 sshd\n  abc bad\n\n  200 my prog\n 300\n";
    assert_eq!(PsBackend::parse_text(text), rows(&[(1, "systemd"), (100, "sshd"), (200, "my")]));
}

#[test]
fn ps_header_is_skipped_whatever_it_holds() {
    assert_eq!(PsBackend::parse_text("1 init\n2 kthreadd\n"), rows(&[(2, "kthreadd")]));
    assert_eq!(PsBackend::parse_text("1 init"), rows(&[]));
    assert_eq!(PsBackend::parse_text(""), rows(&[]));
    assert_eq!(PsBackend::parse_text("\n"), rows(&[]));
    assert_eq!(PsBackend::parse_text("\n7 a"), rows(&[(7, "a")]));
    assert_eq!(PsBackend::parse_text("PID COMM\n7 a\n"), rows(&[(7, "a")]));
}

#[test]
fn ps_listing_agrees_with_std() {
    let samples = [
        "",
        "\n",
        "\n\n",
        "PID COMM",
        "PID COMM\n",
        "PID COMM\n1 a",
        "PID COMM\r\n 1 init\r\n 22 sshd\r\n",
        "PID COMM\n1 a\r",
        "h\n\t12\tname\textra more\n",
        "h\n  +5 plus\n -7 minus\n 2147483648 big\n 07 zero\n",
        "h\n1\u{a0}nbsp\n2\u{3000}wide name\n",
        "h\n1 a\n\n\n2 b\n   \n3 c",
        "h\n12x name\nname 12\n12\n 12 \n",
        "h\n1 \u{65e5}\u{672c}\u{8a9e}\n",
    ];
    for text in samples {
        assert_eq!(PsBackend::parse_text(text), by_std(text), "{:?}", text);
    }
}

#[test]
fn ps_line_holds_a_pid_and_a_name() {
    let line = |s: &str| -> Option<(i32, String)> {
        let chars: Vec<char> = s.chars().collect();
        PsBackend::parse_line(&chars)
    };
    assert_eq!(line("  12 bash  "), Some((12, "bash".to_string())));
    assert_eq!(line("12 bash -l"), Some((12, "bash".to_string())));
    assert_eq!(line("-3 odd"), Some((-3, "odd".to_string())));
    assert_eq!(line("12"), None);
    assert_eq!(line("bash 12"), None);
    assert_eq!(line(""), None);
    assert_eq!(line("   "), None);
}

#[test]
fn ps_bytes_are_decoded_leniently() {
    assert_eq!(PsBackend::parse(b"PID COMM\n 7 a\xffb\n 8 ok\n"), rows(&[(7, "a\u{fffd}b"), (8, "ok")]));
    assert_eq!(PsBackend::parse("PID COMM\n 9 caf\u{e9}\n".as_bytes()), rows(&[(9, "caf\u{e9}")]));
    assert_eq!(PsBackend::parse(b""), rows(&[]));
}

#[test]
fn proc_entries_name_processes_by_number() {
    assert_eq!(LinuxPsBackend::entry_pid("1"), Some(1));
    assert_eq!(LinuxPsBackend::entry_pid("4194304"), Some(4194304));
    assert_eq!(LinuxPsBackend::entry_pid("+5"), Some(5));
    assert_eq!(LinuxPsBackend::entry_pid("self"), None);
    assert_eq!(LinuxPsBackend::entry_pid("cpuinfo"), None);
    assert_eq!(LinuxPsBackend::entry_pid(""), None);
    assert_eq!(LinuxPsBackend::entry_pid("12 "), None);
    assert_eq!(LinuxPsBackend::entry_pid("99999999999"), None);
}

#[test]
fn comm_path_names_the_file() {
    assert_eq!(LinuxPsBackend::comm_path(1), "/proc/1/comm");
    assert_eq!(LinuxPsBackend::comm_path(31337), "/proc/31337/comm");
    assert_eq!(LinuxPsBackend::comm_path(0), "/proc/0/comm");
    assert_eq!(LinuxPsBackend::comm_path(-5), "/proc/-5/comm");
    assert_eq!(LinuxPsBackend::comm_path(i32::MAX), "/proc/2147483647/comm");
}

#[test]
fn proc_record_trims_the_name() {
    assert_eq!(LinuxPsBackend::record(12, "bash\n"), Some((12, "bash".to_string())));
    assert_eq!(LinuxPsBackend::record(12, "  tmux: server \n"), Some((12, "tmux: server".to_string())));
    assert_eq!(LinuxPsBackend::record(12, "\n"), None);
    assert_eq!(LinuxPsBackend::record(12, ""), None);
    assert_eq!(named_record(-1, " x "), Some((-1, "x".to_string())));
}

#[test]
fn proc_is_probed() {
    assert_eq!(LinuxPsBackend::available(), std::path::Path::new("/proc").is_dir());
}

fn layout() -> RecordLayout {
    RecordLayout::new(16, 0, 4, 12, false).unwrap()
}

fn record(pid: i32, name: &[u8]) -> Vec<u8> {
    let mut rec = pid.to_le_bytes().to_vec();
    rec.extend_from_slice(name);
    rec.resize(16, 0);
    rec
}

fn first_request(probed: usize) -> FillRequest {
    match NetBsdSysctlBackend::plan(&layout(), probed) {
        Plan::Fill(req) => req,
        other => panic!("no request: {:?}", other),
    }
}

#[test]
fn layout_fields_must_lie_inside_the_record() {
    assert!(RecordLayout::new(16, 0, 4, 12, false).is_some());
    assert!(RecordLayout::new(16, 12, 0, 12, true).is_some());
    assert!(RecordLayout::new(4, 0, 4, 0, false).is_some());
    assert!(RecordLayout::new(16, 13, 0, 4, false).is_none());
    assert!(RecordLayout::new(16, 0, 4, 13, false).is_none());
    assert!(RecordLayout::new(16, 0, 17, 0, false).is_none());
    assert!(RecordLayout::new(3, 0, 0, 0, false).is_none());
    assert!(RecordLayout::new(0, 0, 0, 0, false).is_none());
    assert!(RecordLayout::new(usize::MAX, usize::MAX, 0, 0, false).is_none());
    assert_eq!(layout().size(), 16);
}

#[test]
fn probe_sizes_the_first_request() {
    assert!(matches!(NetBsdSysctlBackend::plan(&layout(), 0), Plan::Empty));

    let req = first_request(160);
    assert_eq!(req.attempt(), 1);
    assert_eq!(req.count(), 10);
    assert_eq!(req.capacity(), (10 + 64) * 16);

    let req = first_request(175);
    assert_eq!(req.count(), 10);

    let req = first_request(5);
    assert_eq!(req.count(), 1);
    assert_eq!(req.capacity(), 65 * 16);
}

#[test]
fn oversized_tables_are_refused() {
    let tiny = RecordLayout::new(4, 0, 4, 0, false).unwrap();
    assert!(matches!(NetBsdSysctlBackend::plan(&tiny, usize::MAX), Plan::TooLarge));
    let most = (i32::MAX as usize) * 16;
    assert!(matches!(NetBsdSysctlBackend::plan(&layout(), most), Plan::Fill(_)));
    assert!(matches!(NetBsdSysctlBackend::plan(&layout(), most + 16), Plan::TooLarge));
}

#[test]
fn retries_grow_and_stop_at_the_ceiling() {
    let mut req = first_request(160);
    let mut counts = vec![req.count()];
    let mut retries = 0;
    while let Some(next) = req.retry(FillFailure::BufferTooSmall) {
        assert!(next.capacity() > req.capacity());
        assert!(next.count() > req.count());
        assert_eq!(next.attempt(), req.attempt() + 1);
        counts.push(next.count());
        req = next;
        retries += 1;
    }
    assert_eq!(retries, 7);
    assert_eq!(req.attempt(), MAX_ATTEMPTS);
    assert_eq!(counts, vec![10, 148, 424, 976, 2080, 4288, 8704, 17536]);
    assert_eq!(req.capacity(), (17536 + 64) * 16);
}

#[test]
fn other_failures_are_not_retried() {
    let req = first_request(160);
    assert!(req.retry(FillFailure::Other).is_none());
    assert!(req.retry(FillFailure::BufferTooSmall).is_some());
}

#[test]
fn growth_stops_where_the_count_no_longer_fits() {
    let req = first_request(((i32::MAX as usize) / 2) * 16);
    assert!(req.retry(FillFailure::BufferTooSmall).is_none());
    let req = first_request(1_073_741_759 * 16);
    let next = req.retry(FillFailure::BufferTooSmall).unwrap();
    assert_eq!(next.count(), 2_147_483_646);
    assert!(next.retry(FillFailure::BufferTooSmall).is_none());
}

#[test]
fn buffer_is_decoded_record_by_record() {
    let mut buf = Vec::new();
    buf.extend(record(1, b"init"));
    buf.extend(record(100, b"sshd\0junk"));
    buf.extend(record(7, b""));
    buf.extend(record(8, b"  \0"));
    buf.extend(record(-2, b" kthreadd \0"));
    buf.extend(record(300, b"twelve_bytes"));
    let written = buf.len();
    assert_eq!(
        NetBsdSysctlBackend::decode(&layout(), &buf, written),
        rows(&[(1, "init"), (100, "sshd"), (-2, "kthreadd"), (300, "twelve_bytes")])
    );
}

#[test]
fn only_the_written_whole_records_count() {
    let mut buf = Vec::new();
    buf.extend(record(1, b"a"));
    buf.extend(record(2, b"b"));
    buf.extend(record(3, b"c"));
    buf.resize(buf.len() + 64, 0);

    assert_eq!(NetBsdSysctlBackend::decode(&layout(), &buf, 48), rows(&[(1, "a"), (2, "b"), (3, "c")]));
    assert_eq!(NetBsdSysctlBackend::decode(&layout(), &buf, 47), rows(&[(1, "a"), (2, "b")]));
    assert_eq!(NetBsdSysctlBackend::decode(&layout(), &buf, 33), rows(&[(1, "a"), (2, "b")]));
    assert_eq!(NetBsdSysctlBackend::decode(&layout(), &buf, 15), rows(&[]));
    assert_eq!(NetBsdSysctlBackend::decode(&layout(), &buf, 0), rows(&[]));
    assert_eq!(
        NetBsdSysctlBackend::decode(&layout(), &buf[..40], 1000),
        rows(&[(1, "a"), (2, "b")])
    );
}

#[test]
fn pid_is_read_in_the_given_byte_order() {
    let big = RecordLayout::new(12, 8, 0, 8, true).unwrap();
    let mut rec = b"daemon\0\0".to_vec();
    rec.extend_from_slice(&0x0102_0304i32.to_be_bytes());
    assert_eq!(NetBsdSysctlBackend::decode(&big, &rec, 12), rows(&[(0x0102_0304, "daemon")]));

    let little = RecordLayout::new(12, 8, 0, 8, false).unwrap();
    assert_eq!(NetBsdSysctlBackend::decode(&little, &rec, 12), rows(&[(0x0403_0201, "daemon")]));

    let mut rec = b"x\0\0\0\0\0\0\0".to_vec();
    rec.extend_from_slice(&(-123456i32).to_be_bytes());
    assert_eq!(NetBsdSysctlBackend::decode(&big, &rec, 12), rows(&[(-123456, "x")]));
    let mut rec = b"x\0\0\0\0\0\0\0".to_vec();
    rec.extend_from_slice(&i32::MIN.to_le_bytes());
    assert_eq!(NetBsdSysctlBackend::decode(&little, &rec, 12), rows(&[(i32::MIN, "x")]));
}

#[test]
fn names_are_decoded_leniently() {
    let buf = record(5, b"a\xffb\0");
    assert_eq!(NetBsdSysctlBackend::decode(&layout(), &buf, 16), rows(&[(5, "a\u{fffd}b")]));
}
