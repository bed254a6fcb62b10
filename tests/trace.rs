use cachesim::cache::CacheOp;
use cachesim::trace::parse_trace_line;

#[test]
fn reads_and_writes_in_both_bases() {
    assert_eq!(parse_trace_line("r 0x7fff5a3c"), Some((0x7fff5a3c, CacheOp::Read)));
    assert_eq!(parse_trace_line("w 4096"), Some((4096, CacheOp::Write)));
    assert_eq!(parse_trace_line("  r\t0xABCdef  trailing"), Some((0xabcdef, CacheOp::Read)));
    assert_eq!(parse_trace_line("w 0x0"), Some((0, CacheOp::Write)));
    assert_eq!(parse_trace_line("r 18446744073709551615"), Some((u64::MAX, CacheOp::Read)));
    assert_eq!(parse_trace_line("r 0xffffffffffffffff"), Some((u64::MAX, CacheOp::Read)));
}

#[test]
fn malformed_lines_are_rejected() {
    assert_eq!(parse_trace_line(""), None);
    assert_eq!(parse_trace_line("x 12"), None);
    assert_eq!(parse_trace_line("rw 12"), None);
    assert_eq!(parse_trace_line("r"), None);
    assert_eq!(parse_trace_line("r 0x"), None);
    assert_eq!(parse_trace_line("r 12a"), None);
    assert_eq!(parse_trace_line("r 0xfg"), None);
    assert_eq!(parse_trace_line("r 18446744073709551616"), None);
    assert_eq!(parse_trace_line("r 0x10000000000000000"), None);
}
