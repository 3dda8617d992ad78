use perf_vumeter::{
    parse_i64, read_cpu_idle, read_diskstats, read_number, split_fields, split_lines,
    StatsError,
};

const PROC_STAT: &[u8] = b"cpu  4946134 4590 2478602 133301687 339228 0 324974 0 0 0\n\
cpu0 395460 280 162807 11177794 29191 0 196711 0 0 0\n\
cpu1 396373 662 172640 11169911 29418 0 45639 0 0 0\n\
intr 976024260 34 0 0 0\n\
ctxt 1990473\n";

const DISKSTATS: &[u8] = b"   7       0 loop0 10 0 20 0 0 0 0 0 0 0 0\n\
   8       0 sda 1000 0 1000 0 2000 0 500 0 0 0 0\n\
   8       1 sda1 900 0 900 0 1900 0 400 0 0 0 0\n\
 259       0 nvme0n1 10 0 3000 0 20 0 1000 0 0 0 0\n";

#[test]
fn parse_i64_accepts_signed_decimals() {
    assert_eq!(parse_i64(b"0"), Some(0));
    assert_eq!(parse_i64(b"12345"), Some(12345));
    assert_eq!(parse_i64(b"+17"), Some(17));
    assert_eq!(parse_i64(b"-42"), Some(-42));
    assert_eq!(parse_i64(b"9223372036854775807"), Some(i64::MAX));
    assert_eq!(parse_i64(b"-9223372036854775808"), Some(i64::MIN));
}

#[test]
fn parse_i64_rejects_other_text() {
    assert_eq!(parse_i64(b""), None);
    assert_eq!(parse_i64(b"-"), None);
    assert_eq!(parse_i64(b"+"), None);
    assert_eq!(parse_i64(b"12a"), None);
    assert_eq!(parse_i64(b" 12"), None);
    assert_eq!(parse_i64(b"9223372036854775808"), None);
    assert_eq!(parse_i64(b"-9223372036854775809"), None);
    assert_eq!(parse_i64(b"99999999999999999999999"), None);
}

#[test]
fn split_lines_follows_a_line_reader() {
    assert_eq!(split_lines(b""), Vec::<Vec<u8>>::new());
    assert_eq!(split_lines(b"abc"), vec![b"abc".to_vec()]);
    assert_eq!(split_lines(b"abc\n"), vec![b"abc".to_vec()]);
    assert_eq!(split_lines(b"a\n\nb"), vec![b"a".to_vec(), b"".to_vec(), b"b".to_vec()]);
}

#[test]
fn split_fields_skips_runs_of_whitespace() {
    assert_eq!(
        split_fields(b"  cpu0\t1  2 \r"),
        vec![b"cpu0".to_vec(), b"1".to_vec(), b"2".to_vec()]
    );
    assert_eq!(split_fields(b"   "), Vec::<Vec<u8>>::new());
}

#[test]
fn read_number_takes_the_first_line() {
    assert_eq!(read_number(b"123456\n"), Ok(123456));
    assert_eq!(read_number(b"7\n8\n"), Ok(7));
}

#[test]
fn read_number_errors() {
    assert_eq!(read_number(b""), Err(StatsError::Empty));
    assert_eq!(read_number(b"12 bytes\n"), Err(StatsError::BadNumber));
}

#[test]
fn read_cpu_idle_takes_the_idle_column_of_cpu_lines() {
    assert_eq!(read_cpu_idle(PROC_STAT), Ok(vec![133301687, 11177794, 11169911]));
}

#[test]
fn read_cpu_idle_errors() {
    assert_eq!(read_cpu_idle(b"cpu 1 2 3\ncpu0 1 2 3 4\n"), Err(StatsError::Malformed));
    assert_eq!(read_cpu_idle(b"cpu 1 2 3 4\ncpu0 1 2 3 x\n"), Err(StatsError::BadNumber));
    assert_eq!(read_cpu_idle(b"cpu 1 2 3 4\n\ncpu0 1 2 3 4\n"), Err(StatsError::Malformed));
    assert_eq!(read_cpu_idle(b""), Err(StatsError::Empty));
}

#[test]
fn read_cpu_idle_stops_at_the_first_other_line() {
    assert_eq!(read_cpu_idle(b"cpu 1 2 3 4\nintr 5\n"), Ok(vec![4]));
    assert_eq!(read_cpu_idle(b"cpu 1 2 3 4\nintr 5\ncpu0 1 2 3 9\n"), Ok(vec![4]));
    assert_eq!(read_cpu_idle(b"intr 5\n"), Ok(vec![]));
}

#[test]
fn crlf_lines_lose_the_carriage_return() {
    assert_eq!(split_lines(b"a\r\nb\r"), vec![b"a".to_vec(), b"b\r".to_vec()]);
    assert_eq!(read_number(b"1500\r\n"), Ok(1500));
    assert_eq!(read_cpu_idle(b"cpu 1 2 3 4\r\ncpu0 1 2 3 5\r\n"), Ok(vec![4, 5]));
}

#[test]
fn read_diskstats_keeps_whole_disks() {
    let t = read_diskstats(DISKSTATS).unwrap();
    assert_eq!(t.len(), 2);
    assert_eq!(t[0].name, b"sda".to_vec());
    assert_eq!((t[0].read, t[0].written), (1000, 500));
    assert_eq!(t[1].name, b"nvme0n1".to_vec());
    assert_eq!((t[1].read, t[1].written), (3000, 1000));
}

#[test]
fn read_diskstats_later_line_replaces_same_device() {
    let t = read_diskstats(b"8 0 sda 0 0 1 0 0 0 2\n8 0 sda 0 0 3 0 0 0 4\n").unwrap();
    assert_eq!(t.len(), 1);
    assert_eq!((t[0].read, t[0].written), (3, 4));
}

#[test]
fn read_diskstats_errors() {
    assert_eq!(read_diskstats(b"").unwrap_err(), StatsError::Empty);
    assert_eq!(read_diskstats(b"8 0\n").unwrap_err(), StatsError::Malformed);
    assert_eq!(read_diskstats(b"8 0 sda 1 2 3\n").unwrap_err(), StatsError::Malformed);
    assert_eq!(read_diskstats(b"8 0 sdb 0 0 x 0 0 0 2\n").unwrap_err(), StatsError::BadNumber);
}
